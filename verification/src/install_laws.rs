//! What holds of every installation, whatever it is told.

use vstd::prelude::*;

use crate::backend::{fits_fat32, OptionsView, ProgressView, Ratio};
use crate::bootloader::{LoaderPhase, LoaderView};
use crate::effects::{ActionView, ReplyView};
use crate::images::is_squashfs_head;
use crate::install::{step_count, step_of, InstallView, Phase};
use crate::path::{joined_path, partition};
use crate::sbc::{sbc_profiles, FilesPhase, FilesView, SBC_COUNT};
use crate::settings::ini_file;

verus! {

impl InstallView {
    /// The installation after a sequence of replies.
    pub open spec fn run(self, replies: Seq<ReplyView>) -> InstallView
        decreases replies.len(),
    {
        if replies.len() == 0 {
            self
        } else {
            self.run(replies.drop_last()).advance(replies.last())
        }
    }
}

/// What the steps of an installation are called, in their order.
pub open spec fn step_messages(superfloppy: bool) -> Seq<Seq<char>> {
    if superfloppy {
        seq![
            "Checking system image"@,
            "Formatting disk (FAT32)"@,
            "Installing bootloader"@,
            "Copying system image"@,
            "Writing configuration"@,
            "Syncing"@,
        ]
    } else {
        seq![
            "Checking system image"@,
            "Creating partitions"@,
            "Formatting boot partition (FAT32)"@,
            "Formatting data partition (BTRFS)"@,
            "Installing bootloader"@,
            "Copying system image"@,
            "Writing configuration"@,
            "Syncing"@,
        ]
    }
}

/// The report of the step of number `i`, counted from zero.
pub open spec fn step_report(superfloppy: bool, i: int) -> ProgressView {
    ProgressView {
        step: (i + 1) as nat,
        total: step_messages(superfloppy).len(),
        message: step_messages(superfloppy)[i],
        fraction: None,
    }
}

/// The first `n` reports of an installation.
pub open spec fn step_reports(superfloppy: bool, n: nat) -> Seq<ProgressView> {
    Seq::new(n, |i: int| step_report(superfloppy, i))
}

/// The reports that an installation asks for while it is told `replies`.
pub open spec fn reports(s: InstallView, replies: Seq<ReplyView>) -> Seq<ProgressView>
    decreases replies.len(),
{
    let before = if replies.len() == 0 {
        Seq::empty()
    } else {
        reports(s, replies.drop_last())
    };
    match s.run(replies).request() {
        ActionView::Report(p) => before.push(p),
        _ => before,
    }
}

/// A phase that shows a step.
spec fn shows_step(phase: Phase) -> bool {
    match phase {
        Phase::CheckReport
        | Phase::DiskReport
        | Phase::PartitionReport
        | Phase::BootReport
        | Phase::DataReport
        | Phase::LoaderReport
        | Phase::CopyReport
        | Phase::ConfigReport
        | Phase::SyncReport => true,
        _ => false,
    }
}

/// A phase before the image has been checked.
pub open spec fn unchecked(phase: Phase) -> bool {
    phase is ImageSize || phase is CheckReport || phase is ImageHead
}

/// A phase before boot loaders are installed.
pub open spec fn before_loaders(phase: Phase) -> bool {
    match phase {
        Phase::Loaders
        | Phase::CopyReport
        | Phase::DataMount
        | Phase::Copy
        | Phase::DataUnmount
        | Phase::ConfigReport
        | Phase::Config
        | Phase::SyncReport
        | Phase::Sync
        | Phase::Unwind
        | Phase::Finished => false,
        _ => true,
    }
}

/// A phase in which the BIOS boot loader is set up.
pub open spec fn sets_up_bios(phase: LoaderPhase) -> bool {
    match phase {
        LoaderPhase::BiosFile(_)
        | LoaderPhase::Grub
        | LoaderPhase::GrubDir
        | LoaderPhase::BiosCopy(_)
        | LoaderPhase::Setup
        | LoaderPhase::Remove(_) => true,
        _ => false,
    }
}

/// What the laws rest on: how the phases, the steps and the mounts belong together.
pub open spec fn consistent(s: InstallView, o: OptionsView) -> bool {
    &&& s.disk == o.disk
    &&& s.image == o.image
    &&& s.superfloppy == o.superfloppy
    &&& s.step <= step_count(s.superfloppy)
    &&& !(s.phase is Unwind || s.phase is Finished) ==> s.step == step_of(s.phase, s.superfloppy)
        && s.result is Ok
    &&& (s.phase is Unwind || s.phase is Finished) && s.result is Ok ==> s.step == step_count(
        s.superfloppy,
    )
    &&& s.superfloppy && !(s.phase is ImageSize || s.phase is Unwind || s.phase is Finished)
        ==> fits_fat32(s.size)
    &&& s.loaders matches Some(l) ==> {
        &&& l.bios_disk matches Some(d) ==> d == s.disk && s.sbc is None
        &&& sets_up_bios(l.phase) ==> l.bios_disk is Some
    }
    &&& before_loaders(s.phase) ==> s.loaders is None
    &&& unchecked(s.phase) ==> s.mounts.len() == 0
    &&& match s.phase {
        Phase::DiskReport | Phase::DiskFormat => s.superfloppy,
        Phase::Geometry
        | Phase::PartitionReport
        | Phase::Partition
        | Phase::Settle
        | Phase::BootWait(_)
        | Phase::BootPause(_)
        | Phase::DataWait(_)
        | Phase::DataPause(_)
        | Phase::BootReport
        | Phase::BootFormat
        | Phase::BootUuid
        | Phase::DataReport
        | Phase::DataFormat => !s.superfloppy,
        Phase::BootFiles => s.files matches Some(f) && !(f.phase is Finished),
        Phase::Loaders => s.loaders matches Some(l) && !(l.phase is Finished),
        Phase::DataMount => !fits_fat32(s.size),
        Phase::DataUnmount => !fits_fat32(s.size) && s.mounts.len() > 0,
        Phase::Copy => fits_fat32(s.size) || s.mounts.len() > 0,
        Phase::Unwind => s.mounts.len() > 0,
        Phase::Finished => s.mounts.len() == 0,
        _ => true,
    }
}

proof fn lemma_loader_keeps(l: LoaderView, r: ReplyView)
    requires
        sets_up_bios(l.phase) ==> l.bios_disk is Some,
    ensures
        l.advance(r).bios_disk == l.bios_disk,
        sets_up_bios(l.advance(r).phase) ==> l.bios_disk is Some,
{
}

#[verifier::rlimit(60)]
proof fn lemma_advance(s: InstallView, o: OptionsView, r: ReplyView)
    requires
        consistent(s, o),
    ensures
        consistent(s.advance(r), o),
        s.advance(r).step == s.step + if shows_step(s.advance(r).phase) {
            1nat
        } else {
            0nat
        },
{
    if s.phase is Loaders {
        lemma_loader_keeps(s.loaders->0, r);
    }
}

/// How phases, steps and mounts belong together holds throughout.
pub proof fn lemma_run(o: OptionsView, replies: Seq<ReplyView>)
    ensures
        consistent(InstallView::start(o).run(replies), o),
    decreases replies.len(),
{
    if replies.len() > 0 {
        lemma_run(o, replies.drop_last());
        lemma_advance(
            InstallView::start(o).run(replies.drop_last()),
            o,
            replies.last(),
        );
    }
}

proof fn lemma_report(s: InstallView, o: OptionsView)
    requires
        consistent(s, o),
    ensures
        match s.request() {
            ActionView::Report(p) => shows_step(s.phase) && s.step > 0 && p == step_report(
                s.superfloppy,
                s.step - 1,
            ),
            _ => !shows_step(s.phase),
        },
{
}

proof fn lemma_reports(o: OptionsView, replies: Seq<ReplyView>)
    ensures
        reports(InstallView::start(o), replies) == step_reports(
            o.superfloppy,
            InstallView::start(o).run(replies).step,
        ),
    decreases replies.len(),
{
    let s = InstallView::start(o);
    let t = s.run(replies);
    lemma_run(o, replies);
    lemma_report(t, o);
    if replies.len() > 0 {
        let less = replies.drop_last();
        lemma_reports(o, less);
        lemma_run(o, less);
        lemma_advance(s.run(less), o, replies.last());
        if t.request() is Report {
            assert(step_reports(o.superfloppy, t.step) =~= step_reports(
                o.superfloppy,
                s.run(less).step,
            ).push(step_report(o.superfloppy, t.step - 1)));
        }
    } else {
        assert(step_reports(o.superfloppy, 0) =~= Seq::empty());
    }
}

/// The steps are shown in their order, each once, none left out; and an installation that
/// succeeds has shown all of them.
pub proof fn law_steps_are_shown_in_order(o: OptionsView, replies: Seq<ReplyView>)
    ensures
        ({
            let s = InstallView::start(o).run(replies);
            let shown = reports(InstallView::start(o), replies);
            &&& shown == step_reports(o.superfloppy, shown.len())
            &&& shown.len() <= step_count(o.superfloppy)
            &&& s.request() == ActionView::Finish(Ok(())) ==> shown.len() == step_count(
                o.superfloppy,
            )
        }),
{
    lemma_run(o, replies);
    lemma_reports(o, replies);
    let s = InstallView::start(o).run(replies);
    if s.request() == ActionView::Finish(Ok(())) {
        lemma_finish_is_the_end(o, s);
    }
}

/// While the system image is copied, how far it is is told under the step that was shown
/// last.
pub proof fn law_copy_is_told_under_its_step(
    o: OptionsView,
    replies: Seq<ReplyView>,
    share: Ratio,
)
    requires
        InstallView::start(o).run(replies).request() is CopyImage,
    ensures
        ({
            let s = InstallView::start(o).run(replies);
            let shown = reports(InstallView::start(o), replies);
            &&& shown.len() > 0
            &&& s.copy_report(share) == (ProgressView { fraction: Some(share), ..shown.last() })
        }),
{
    lemma_run(o, replies);
    lemma_reports(o, replies);
    lemma_copy_phase(InstallView::start(o).run(replies));
}

proof fn lemma_copy_phase(s: InstallView)
    requires
        s.request() is CopyImage,
        s.phase is BootFiles ==> (s.files matches Some(f) && !(f.phase is Finished)),
        s.phase is Loaders ==> (s.loaders matches Some(l) && !(l.phase is Finished)),
    ensures
        s.phase is Copy,
{
}

/// An installation asks to finish only at its end, with its result.
pub proof fn lemma_finish_is_the_end(o: OptionsView, s: InstallView)
    requires
        consistent(s, o),
        s.request() is Finish,
    ensures
        s.phase is Finished,
        s.request() == ActionView::Finish(s.result),
{
}

/// An action that may change what is on a disk.
pub open spec fn changes_disks(a: ActionView) -> bool {
    match a {
        ActionView::Run(_, _)
        | ActionView::Mount { .. }
        | ActionView::CreateDir(_)
        | ActionView::CopyFile { .. }
        | ActionView::CopyImage { .. }
        | ActionView::WriteText { .. }
        | ActionView::RemoveFile(_) => true,
        _ => false,
    }
}

/// With the reply of number `k`, the image was found to be a squashfs image.
pub open spec fn image_checked(s: InstallView, replies: Seq<ReplyView>, k: int) -> bool {
    &&& 0 <= k < replies.len()
    &&& s.run(replies.take(k)).request() == ActionView::ReadHead(s.image)
    &&& replies[k] matches ReplyView::Head(h) && is_squashfs_head(h)
}

/// An installation leaves the phases before the check only with the check, or to its end.
proof fn lemma_leaves_unchecked(s: InstallView, o: OptionsView, r: ReplyView)
    requires
        consistent(s, o),
        unchecked(s.phase),
    ensures
        unchecked(s.advance(r).phase) || s.advance(r).phase is Finished || (s.request()
            == ActionView::ReadHead(s.image) && (r matches ReplyView::Head(h) && is_squashfs_head(
            h,
        ))),
{
}

proof fn lemma_checked(o: OptionsView, replies: Seq<ReplyView>)
    ensures
        unchecked(InstallView::start(o).run(replies).phase) || InstallView::start(o).run(
            replies,
        ).phase is Finished || exists|k: int| #[trigger]
            image_checked(InstallView::start(o), replies, k),
    decreases replies.len(),
{
    let s = InstallView::start(o);
    if replies.len() > 0 {
        let less = replies.drop_last();
        lemma_checked(o, less);
        lemma_run(o, less);
        let n = less.len() as int;
        assert(replies.take(n) =~= less);
        if exists|k: int| #[trigger] image_checked(s, less, k) {
            let k = choose|k: int| #[trigger] image_checked(s, less, k);
            assert(less.take(k) =~= replies.take(k));
            assert(image_checked(s, replies, k));
        } else if unchecked(s.run(less).phase) {
            lemma_leaves_unchecked(s.run(less), o, replies.last());
            if !unchecked(s.run(replies).phase) && !(s.run(replies).phase is Finished) {
                assert(image_checked(s, replies, n));
            }
        }
    }
}

/// Nothing that may change a disk is done before the image has been found to be a squashfs
/// image.
pub proof fn law_image_is_checked_first(o: OptionsView, replies: Seq<ReplyView>)
    requires
        changes_disks(InstallView::start(o).run(replies).request()),
    ensures
        exists|k: int| #[trigger] image_checked(InstallView::start(o), replies, k),
{
    lemma_run(o, replies);
    lemma_checked(o, replies);
}

/// Where the whole disk is to become one file system, an image that does not fit on FAT32
/// is refused at once, and no other is refused for its size.
pub proof fn law_superfloppy_needs_a_small_image(o: OptionsView, size: u64)
    requires
        o.superfloppy,
    ensures
        ({
            let s = InstallView::start(o).advance(ReplyView::Size(Ok(size)));
            if fits_fat32(size as nat) {
                s.request() is Report
            } else {
                s.request() == ActionView::Finish(
                    Err("superfloppy mode requires a system image smaller than 4 GiB"@),
                )
            }
        }),
{
}

/// What is mounted, the latest at the end, after an installation was told `replies`.
pub open spec fn mounted_dirs(s: InstallView, replies: Seq<ReplyView>) -> Seq<Seq<char>>
    decreases replies.len(),
{
    if replies.len() == 0 {
        Seq::empty()
    } else {
        let less = replies.drop_last();
        let before = mounted_dirs(s, less);
        match (s.run(less).request(), replies.last()) {
            (ActionView::Mount { .. }, ReplyView::Text(Ok(dir))) => before.push(dir),
            (ActionView::Unmount(_), _) => before.drop_last(),
            _ => before,
        }
    }
}

proof fn lemma_mounts(o: OptionsView, replies: Seq<ReplyView>)
    ensures
        InstallView::start(o).run(replies).mounts == mounted_dirs(InstallView::start(o), replies),
    decreases replies.len(),
{
    if replies.len() > 0 {
        let less = replies.drop_last();
        lemma_mounts(o, less);
        lemma_run(o, less);
    }
}

/// What is unmounted is always what was mounted last, and an installation ends, with
/// whatever result, only when nothing that it mounted is left.
pub proof fn law_all_that_is_mounted_is_unmounted(o: OptionsView, replies: Seq<ReplyView>)
    ensures
        ({
            let s = InstallView::start(o);
            match s.run(replies).request() {
                ActionView::Unmount(dir) => mounted_dirs(s, replies).len() > 0 && dir
                    == mounted_dirs(s, replies).last(),
                ActionView::Finish(_) => mounted_dirs(s, replies).len() == 0,
                _ => true,
            }
        }),
{
    lemma_run(o, replies);
    lemma_mounts(o, replies);
}

/// While an installation was told `replies`, it asked for `a`, and that succeeded.
pub open spec fn succeeded(s: InstallView, replies: Seq<ReplyView>, a: ActionView) -> bool
    decreases replies.len(),
{
    replies.len() > 0 && (succeeded(s, replies.drop_last(), a) || (s.run(
        replies.drop_last(),
    ).request() == a && (replies.last() matches ReplyView::Outcome(r) && r is Ok)))
}

/// The copy of the system image.
pub open spec fn image_copy(s: InstallView) -> ActionView {
    ActionView::CopyImage { from: s.image, to: s.copy_target(), size: s.size as u64 }
}

/// The writing of `text` as `system.ini`.
pub open spec fn config_write(s: InstallView, text: Seq<char>) -> ActionView {
    ActionView::WriteText { path: s.config_target(), text }
}

spec fn past_copy(s: InstallView) -> bool {
    match s.phase {
        Phase::DataUnmount
        | Phase::ConfigReport
        | Phase::Config
        | Phase::SyncReport
        | Phase::Sync => true,
        Phase::Unwind | Phase::Finished => s.result is Ok,
        _ => false,
    }
}

spec fn past_config(s: InstallView) -> bool {
    match s.phase {
        Phase::SyncReport | Phase::Sync => true,
        Phase::Unwind | Phase::Finished => s.result is Ok,
        _ => false,
    }
}

spec fn past_loaders(s: InstallView) -> bool {
    past_copy(s) || s.phase is CopyReport || s.phase is DataMount || s.phase is Copy
}

#[verifier::rlimit(60)]
proof fn lemma_past(s: InstallView, o: OptionsView, r: ReplyView)
    requires
        consistent(s, o),
    ensures
        ({
            let t = s.advance(r);
            let ok = r matches ReplyView::Outcome(x) && x is Ok;
            &&& t.config == s.config
            &&& past_copy(t) ==> image_copy(t) == image_copy(s) && t.config_target()
                == s.config_target() && t.loaders == s.loaders
            &&& past_copy(t) && !past_copy(s) ==> ok && s.request() == image_copy(s)
            &&& past_config(t) && !past_config(s) && s.config is Some ==> ok && s.request()
                == config_write(s, s.config->0)
            &&& past_loaders(t) && past_loaders(s) ==> t.loaders == s.loaders
            &&& past_loaders(t) && !past_loaders(s) ==> (t.loaders matches Some(l) && l.phase
                is Finished && l.result is Ok)
            &&& past_config(t) ==> past_copy(t)
        }),
{
}

proof fn lemma_installed(o: OptionsView, replies: Seq<ReplyView>)
    ensures
        ({
            let s = InstallView::start(o);
            let t = s.run(replies);
            &&& t.config == s.config
            &&& past_copy(t) ==> succeeded(s, replies, image_copy(t))
            &&& past_config(t) && t.config is Some ==> succeeded(
                s,
                replies,
                config_write(t, t.config->0),
            )
            &&& past_loaders(t) ==> (t.loaders matches Some(l) && l.phase is Finished && l.result
                is Ok)
        }),
    decreases replies.len(),
{
    if replies.len() > 0 {
        let less = replies.drop_last();
        lemma_installed(o, less);
        lemma_run(o, less);
        lemma_past(InstallView::start(o).run(less), o, replies.last());
    }
}

/// While an installation was told `replies`, it asked for the mount `a`, and was told that it
/// is mounted on `dir`.
pub open spec fn mounted_on(
    s: InstallView,
    replies: Seq<ReplyView>,
    a: ActionView,
    dir: Seq<char>,
) -> bool
    decreases replies.len(),
{
    replies.len() > 0 && (mounted_on(s, replies.drop_last(), a, dir) || (s.run(
        replies.drop_last(),
    ).request() == a && replies.last() == ReplyView::Text(Ok(dir))))
}

/// The mount of the boot device.
pub open spec fn boot_mount(s: InstallView) -> ActionView {
    ActionView::Mount {
        source: s.boot_device(),
        fstype: Some("vfat"@),
        options: seq!["fmask=177"@, "dmask=077"@],
        looped: false,
    }
}

/// The mount of the data device.
pub open spec fn data_mount(s: InstallView) -> ActionView {
    ActionView::Mount {
        source: s.data_device(),
        fstype: Some("btrfs"@),
        options: Seq::empty(),
        looped: false,
    }
}

spec fn past_boot_mount(s: InstallView) -> bool {
    past_loaders(s) || s.phase is LoaderReport || s.phase is BootFiles || s.phase is Loaders
}

spec fn past_data_mount(s: InstallView) -> bool {
    !fits_fat32(s.size) && (past_copy(s) || s.phase is Copy)
}

#[verifier::rlimit(60)]
proof fn lemma_past_mounts(s: InstallView, o: OptionsView, r: ReplyView)
    requires
        consistent(s, o),
    ensures
        ({
            let t = s.advance(r);
            &&& boot_mount(t) == boot_mount(s)
            &&& data_mount(t) == data_mount(s)
            &&& past_boot_mount(t) && past_boot_mount(s) ==> t.boot == s.boot
            &&& past_boot_mount(t) && !past_boot_mount(s) ==> s.request() == boot_mount(s) && r
                == ReplyView::Text(Ok(t.boot))
            &&& past_data_mount(t) && past_data_mount(s) ==> t.data == s.data
            &&& past_data_mount(t) && !past_data_mount(s) ==> s.request() == data_mount(s) && r
                == ReplyView::Text(Ok(t.data))
        }),
{
}

proof fn lemma_mounted_on(o: OptionsView, replies: Seq<ReplyView>)
    ensures
        ({
            let s = InstallView::start(o);
            let t = s.run(replies);
            &&& past_boot_mount(t) ==> mounted_on(s, replies, boot_mount(t), t.boot)
            &&& past_data_mount(t) ==> mounted_on(s, replies, data_mount(t), t.data)
        }),
    decreases replies.len(),
{
    if replies.len() > 0 {
        let less = replies.drop_last();
        lemma_mounted_on(o, less);
        lemma_run(o, less);
        lemma_past_mounts(InstallView::start(o).run(less), o, replies.last());
    }
}

#[verifier::rlimit(60)]
proof fn lemma_size_step(s: InstallView, o: OptionsView, r: ReplyView)
    requires
        consistent(s, o),
    ensures
        ({
            let t = s.advance(r);
            &&& !(t.phase is ImageSize)
            &&& !(s.phase is ImageSize) ==> t.size == s.size && (t.result is Ok ==> s.result is Ok)
            &&& s.phase is ImageSize && t.result is Ok ==> t.size <= u64::MAX && r
                == ReplyView::Size(Ok(t.size as u64))
        }),
{
}

proof fn lemma_size_told(o: OptionsView, replies: Seq<ReplyView>)
    ensures
        ({
            let t = InstallView::start(o).run(replies);
            &&& t.phase is ImageSize <==> replies.len() == 0
            &&& replies.len() > 0 && t.result is Ok ==> t.size <= u64::MAX && replies[0]
                == ReplyView::Size(Ok(t.size as u64))
        }),
    decreases replies.len(),
{
    if replies.len() > 0 {
        let less = replies.drop_last();
        lemma_size_told(o, less);
        lemma_run(o, less);
        lemma_size_step(InstallView::start(o).run(less), o, replies.last());
        if less.len() > 0 {
            assert(less[0] == replies[0]);
        } else {
            assert(replies.last() == replies[0]);
        }
    }
}

/// An installation that succeeds has copied the system image, written the settings there
/// were, and finished installing the boot loaders, each with success. The settings, and an
/// image that fits there, went to where the boot device of the chosen disk was mounted; any
/// other image went to where its data partition was mounted. The size that decides is the one
/// that was told first.
pub proof fn law_success_means_installed(o: OptionsView, replies: Seq<ReplyView>)
    requires
        InstallView::start(o).run(replies).request() == ActionView::Finish(Ok(())),
    ensures
        ({
            let s = InstallView::start(o);
            let t = s.run(replies);
            &&& succeeded(s, replies, image_copy(t))
            &&& t.image == o.image
            &&& t.disk == o.disk
            &&& replies.len() > 0
            &&& t.size <= u64::MAX
            &&& replies[0] == ReplyView::Size(Ok(t.size as u64))
            &&& mounted_on(s, replies, boot_mount(t), t.boot)
            &&& fits_fat32(t.size) ==> t.copy_target() == joined_path(t.boot, "system.img"@)
            &&& !fits_fat32(t.size) ==> mounted_on(s, replies, data_mount(t), t.data)
                && t.copy_target() == joined_path(t.data, "system"@)
            &&& t.config_target() == joined_path(t.boot, "system.ini"@)
            &&& ini_file(o) matches Some(text) ==> succeeded(s, replies, config_write(t, text))
            &&& t.loaders matches Some(l) && l.phase is Finished && l.result is Ok
        }),
{
    lemma_run(o, replies);
    lemma_installed(o, replies);
    lemma_mounted_on(o, replies);
    lemma_size_told(o, replies);
    lemma_finish_is_the_end(o, InstallView::start(o).run(replies));
}

/// A program is run on nothing but the chosen disk and its first two partitions.
pub open spec fn keeps_to_disk(disk: Seq<char>, program: Seq<char>, args: Seq<Seq<char>>) -> bool {
    ||| program == "mkfs.vfat"@ && (args.last() == disk || args.last() == partition(disk, 1))
    ||| program == "parted"@ && args[1] == disk
    ||| program == "mkfs.btrfs"@ && args.last() == partition(disk, 2)
    ||| program == "grub-bios-setup"@ && args.last() == disk
    ||| program == "udevadm"@ && args == seq!["settle"@]
    ||| program == "sync"@ && args.len() == 0
}

/// Whatever program an installation runs, it is run on nothing but the chosen disk and its
/// partitions.
pub proof fn law_only_the_chosen_disk_is_touched(o: OptionsView, replies: Seq<ReplyView>)
    ensures
        InstallView::start(o).run(replies).request() matches ActionView::Run(program, args)
            ==> keeps_to_disk(o.disk, program, args),
{
    lemma_run(o, replies);
}

/// An image for a single-board computer is neither set up for BIOS, nor, where the computer
/// does not want it, given an EFI system partition.
pub proof fn law_single_board_computers_keep_their_ways(o: OptionsView, replies: Seq<ReplyView>)
    requires
        InstallView::start(o).run(replies).sbc is Some,
    ensures
        ({
            let s = InstallView::start(o).run(replies);
            s.request() matches ActionView::Run(program, args) ==> {
                &&& program != "grub-bios-setup"@
                &&& program == "parted"@ && !sbc_profiles()[s.sbc->0].mark_esp ==> forall|j: int|
                    2 <= j < args.len() ==> args[j] != "set 1 esp on"@
            }
        }),
{
    let s = InstallView::start(o).run(replies);
    lemma_run(o, replies);
    reveal_strlit("grub-bios-setup");
    reveal_strlit("parted");
    reveal_strlit("mkfs.vfat");
    reveal_strlit("mkfs.btrfs");
    reveal_strlit("udevadm");
    reveal_strlit("sync");
    assert("grub-bios-setup"@.len() == 15);
    assert("mkfs.vfat"@.len() == 9);
    assert("mkfs.btrfs"@.len() == 10);
    assert("udevadm"@.len() == 7);
    assert("parted"@.len() == 6);
    assert("sync"@.len() == 4);
    if let ActionView::Run(program, args) = s.request() {
        if s.phase is Partition && !sbc_profiles()[s.sbc->0].mark_esp {
            reveal_strlit("set 1 esp on");
            reveal_strlit("set 1 boot on");
            reveal_strlit("mklabel ");
            reveal_strlit("mkpart primary fat32 1MiB ");
            reveal_strlit("mkpart primary btrfs ");
            let esp = "set 1 esp on"@;
            assert(esp[0] == 's' && esp.len() == 12);
            assert(args[2][0] == 'm');
            assert(args[3][0] == 'm');
            assert(args[4][0] == 'm');
            assert(args[5].len() == 13);
            assert(args.len() == 6);
        }
    }
}

/// Where a phase stands in the order in which phases follow each other, counted from the
/// end.
pub open spec fn remaining_phases(phase: Phase) -> nat {
    match phase {
        Phase::ImageSize => 31,
        Phase::CheckReport => 30,
        Phase::ImageHead => 29,
        Phase::ImageMount => 28,
        Phase::Marker(_) => 27,
        Phase::DiskReport => 26,
        Phase::DiskFormat => 25,
        Phase::Geometry => 26,
        Phase::PartitionReport => 25,
        Phase::Partition => 24,
        Phase::Settle => 23,
        Phase::BootWait(_) | Phase::BootPause(_) => 22,
        Phase::DataWait(_) | Phase::DataPause(_) => 21,
        Phase::BootReport => 20,
        Phase::BootFormat => 19,
        Phase::BootUuid => 18,
        Phase::DataReport => 17,
        Phase::DataFormat => 16,
        Phase::BootMount => 15,
        Phase::LoaderReport => 14,
        Phase::BootFiles => 13,
        Phase::Loaders => 12,
        Phase::CopyReport => 11,
        Phase::DataMount => 10,
        Phase::Copy => 9,
        Phase::DataUnmount => 8,
        Phase::ConfigReport => 7,
        Phase::Config => 6,
        Phase::SyncReport => 5,
        Phase::Sync => 4,
        Phase::Unwind => 1,
        Phase::Finished => 0,
    }
}

/// Where the installing of boot loaders stands, counted from its end.
pub open spec fn remaining_loader(l: LoaderView) -> (nat, nat) {
    match l.phase {
        LoaderPhase::ImageDir => (12, 0),
        LoaderPhase::LocalDir => (11, 0),
        LoaderPhase::SystemDir => (10, 0),
        LoaderPhase::EfiDir => (9, 0),
        LoaderPhase::Listing => (8, 0),
        LoaderPhase::Efi(i) => (7, (l.names.len() - i) as nat),
        LoaderPhase::BiosFile(i) => (6, (3 - i) as nat),
        LoaderPhase::Grub => (5, 0),
        LoaderPhase::GrubDir => (4, 0),
        LoaderPhase::BiosCopy(i) => (3, (3 - i) as nat),
        LoaderPhase::Setup => (2, 0),
        LoaderPhase::Remove(i) => (1, (2 - i) as nat),
        LoaderPhase::Finished => (0, 0),
    }
}

/// Where the copying of boot files stands, counted from its end.
pub open spec fn remaining_files(f: FilesView) -> (nat, nat) {
    let left = |i: usize| 4 * (f.walk.files.len() - i);
    match f.phase {
        FilesPhase::Walk => (2, 0),
        FilesPhase::Check(i) => (1, (left(i) + 3) as nat),
        FilesPhase::Read(i) | FilesPhase::Parent(i) => (1, (left(i) + 2) as nat),
        FilesPhase::Write(i) | FilesPhase::Copy(i) => (1, (left(i) + 1) as nat),
        FilesPhase::Finished => (0, 0),
    }
}

/// Where an installation stands, counted from its end: by phase first, then by what goes on
/// within the phase.
pub open spec fn remaining(s: InstallView) -> (nat, nat, nat) {
    let (within, count) = match s.phase {
        Phase::Marker(i) => (0, (SBC_COUNT - i) as nat),
        Phase::BootWait(n) | Phase::DataWait(n) => (0, (2 * n + 1) as nat),
        Phase::BootPause(n) | Phase::DataPause(n) => (0, (2 * n) as nat),
        Phase::BootFiles => remaining_files(s.files->0),
        Phase::Loaders => remaining_loader(s.loaders->0),
        Phase::Unwind => (0, s.mounts.len()),
        _ => (0nat, 0nat),
    };
    (remaining_phases(s.phase), within, count)
}

/// The lexicographic order.
pub open spec fn comes_before(a: (nat, nat, nat), b: (nat, nat, nat)) -> bool {
    a.0 < b.0 || (a.0 == b.0 && (a.1 < b.1 || (a.1 == b.1 && a.2 < b.2)))
}

/// Every reply brings an installation nearer to its end. The one exception is the walk
/// through the directories of boot files, which takes as long as there are directories.
#[verifier::rlimit(60)]
pub proof fn law_every_reply_leads_to_the_end(s: InstallView, r: ReplyView)
    requires
        s.wf(),
        !(s.phase is Finished),
        s.phase is BootFiles ==> !(s.files->0.phase is Walk),
    ensures
        comes_before(remaining(s.advance(r)), remaining(s)),
{
}

} // verus!
