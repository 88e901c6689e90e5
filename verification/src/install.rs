//! The installation of a system image on a disk.

use vstd::prelude::*;

use crate::backend::{
    fits_fat32, InstallOptions, OptionsView, Progress, ProgressView, Ratio, FAT32_LIMIT,
};
use crate::bootloader::{BootloaderSetup, LoaderView};
use crate::effects::{
    failure, failure_text, option_view, outcome_view, owned_view, stray_reply, Action, ActionView,
    Reply, ReplyView,
};
use crate::images::{has_squashfs_magic, is_squashfs_head};
use crate::layout::{
    bios_compatible, boot_gib, btrfs_args, btrfs_arguments, disk_bytes, disk_geometry,
    least_capacity_gib, parted_args, partition_commands, sector_length, starts_by_bios, vfat_args,
    vfat_arguments,
};
use crate::path::{
    file_name_or_empty, file_name_text, join_path, joined_path, partition, partition_path,
};
use crate::sbc::{
    sbc_profile, sbc_profiles, BootFileCopy, FilesView, SBC_COUNT,
};
use crate::settings::{ini_file, system_ini};
use crate::split::{strings, texts};

verus! {

/// How often a partition is looked for.
pub const WAIT_TRIES: u32 = 25;

/// The milliseconds between two looks.
pub const WAIT_PAUSE: u64 = 200;

/// How far an installation is: what it waits to be told.
#[derive(Debug, Clone, Copy, PartialEq, Eq, Structural)]
pub enum Phase {
    /// The size of the image.
    ImageSize,
    /// That the step of checking the image is shown.
    CheckReport,
    /// The first bytes of the image.
    ImageHead,
    /// Where the image is mounted.
    ImageMount,
    /// Whether the image has the marker of the computer of that number.
    Marker(usize),
    /// That the step of formatting the disk is shown.
    DiskReport,
    /// Whether the disk could be formatted.
    DiskFormat,
    /// The size and the sectors of the disk.
    Geometry,
    /// That the step of partitioning is shown.
    PartitionReport,
    /// Whether the disk could be partitioned.
    Partition,
    /// That device nodes have settled.
    Settle,
    /// Whether the boot partition is there; so many looks are left.
    BootWait(u32),
    /// That the pause before the next look is over.
    BootPause(u32),
    /// Whether the data partition is there; so many looks are left.
    DataWait(u32),
    /// That the pause before the next look is over.
    DataPause(u32),
    /// That the step of formatting the boot partition is shown.
    BootReport,
    /// Whether the boot partition could be formatted.
    BootFormat,
    /// The UUID of the boot partition.
    BootUuid,
    /// That the step of formatting the data partition is shown.
    DataReport,
    /// Whether the data partition could be formatted.
    DataFormat,
    /// Where the boot partition is mounted.
    BootMount,
    /// That the step of installing boot loaders is shown.
    LoaderReport,
    /// What the copying of boot files waits for.
    BootFiles,
    /// What the installing of boot loaders waits for.
    Loaders,
    /// That the step of copying the image is shown.
    CopyReport,
    /// Where the data partition is mounted.
    DataMount,
    /// Whether the image could be copied.
    Copy,
    /// That the data partition is unmounted.
    DataUnmount,
    /// That the step of writing settings is shown.
    ConfigReport,
    /// Whether the settings could be written.
    Config,
    /// That the step of syncing is shown.
    SyncReport,
    /// That all is written to the disk.
    Sync,
    /// That what was mounted last is unmounted.
    Unwind,
    /// Nothing.
    Finished,
}

/// The contents of an `Installer`.
#[verifier::ext_equal]
pub struct InstallView {
    /// The disk to install on.
    pub disk: Seq<char>,
    /// The image to install.
    pub image: Seq<char>,
    /// Whether the whole disk becomes one file system.
    pub superfloppy: bool,
    /// The contents of `system.ini`, if it is to be written.
    pub config: Option<Seq<char>>,
    pub phase: Phase,
    /// The number of the current step, counted from one; zero before the first.
    pub step: nat,
    /// The size of the image.
    pub size: nat,
    /// Where the image is mounted, if it is.
    pub root: Option<Seq<char>>,
    /// The single-board computer that the image is for, if it is for one.
    pub sbc: Option<int>,
    /// Whether the disk is set up for BIOS.
    pub bios: bool,
    /// The UUID of the boot partition.
    pub uuid: Seq<char>,
    /// Where the boot partition is mounted.
    pub boot: Seq<char>,
    /// Where the data partition is mounted.
    pub data: Seq<char>,
    /// What is mounted, the latest at the end.
    pub mounts: Seq<Seq<char>>,
    /// The copying of boot files, once it is under way.
    pub files: Option<FilesView>,
    /// The installing of boot loaders, once it is under way.
    pub loaders: Option<LoaderView>,
    /// The result, once nothing but unmounting is left.
    pub result: Result<(), Seq<char>>,
}

/// The number of steps of an installation.
pub open spec fn step_count(superfloppy: bool) -> nat {
    if superfloppy {
        6
    } else {
        8
    }
}

/// The step that a phase belongs to: its number, counted from one; zero before the first.
pub open spec fn step_of(phase: Phase, superfloppy: bool) -> nat {
    match phase {
        Phase::ImageSize => 0,
        Phase::CheckReport
        | Phase::ImageHead
        | Phase::ImageMount
        | Phase::Marker(_)
        | Phase::Geometry => 1,
        Phase::DiskReport | Phase::DiskFormat => 2,
        Phase::PartitionReport
        | Phase::Partition
        | Phase::Settle
        | Phase::BootWait(_)
        | Phase::BootPause(_)
        | Phase::DataWait(_)
        | Phase::DataPause(_) => 2,
        Phase::BootReport | Phase::BootFormat | Phase::BootUuid => 3,
        Phase::DataReport | Phase::DataFormat => 4,
        Phase::BootMount => if superfloppy {
            2
        } else {
            4
        },
        Phase::LoaderReport | Phase::BootFiles | Phase::Loaders => if superfloppy {
            3
        } else {
            5
        },
        Phase::CopyReport | Phase::DataMount | Phase::Copy | Phase::DataUnmount => if superfloppy {
            4
        } else {
            6
        },
        Phase::ConfigReport | Phase::Config => if superfloppy {
            5
        } else {
            7
        },
        Phase::SyncReport | Phase::Sync | Phase::Unwind | Phase::Finished => step_count(
            superfloppy,
        ),
    }
}

/// What the step that a phase shows is called.
pub open spec fn step_message(phase: Phase) -> Seq<char> {
    match phase {
        Phase::CheckReport => "Checking system image"@,
        Phase::DiskReport => "Formatting disk (FAT32)"@,
        Phase::PartitionReport => "Creating partitions"@,
        Phase::BootReport => "Formatting boot partition (FAT32)"@,
        Phase::DataReport => "Formatting data partition (BTRFS)"@,
        Phase::LoaderReport => "Installing bootloader"@,
        Phase::CopyReport => "Copying system image"@,
        Phase::ConfigReport => "Writing configuration"@,
        _ => "Syncing"@,
    }
}

impl InstallView {
    /// An installation at its start.
    pub open spec fn start(o: OptionsView) -> InstallView {
        InstallView {
            disk: o.disk,
            image: o.image,
            superfloppy: o.superfloppy,
            config: ini_file(o),
            phase: Phase::ImageSize,
            step: 0,
            size: 0,
            root: None,
            sbc: None,
            bios: false,
            uuid: ""@,
            boot: ""@,
            data: ""@,
            mounts: Seq::empty(),
            files: None,
            loaders: None,
            result: Ok(()),
        }
    }

    /// What holds throughout an installation.
    pub open spec fn wf(self) -> bool {
        &&& self.size <= u64::MAX
        &&& self.phase is Unwind || self.phase is Finished || self.step == step_of(
            self.phase,
            self.superfloppy,
        )
        &&& self.step <= step_count(self.superfloppy)
        &&& self.sbc matches Some(i) ==> 0 <= i < SBC_COUNT
        &&& self.superfloppy && !(self.phase is ImageSize || self.phase is Unwind
            || self.phase is Finished) ==> fits_fat32(self.size)
        &&& match self.phase {
            Phase::Marker(i) => i < SBC_COUNT && self.root is Some,
            Phase::BootWait(n) | Phase::BootPause(n) | Phase::DataWait(n) | Phase::DataPause(n) => 0
                < n <= WAIT_TRIES && !self.superfloppy,
            Phase::BootFiles => self.files matches Some(f) && f.wf() && !(f.phase is Finished),
            Phase::Loaders => self.loaders matches Some(l) && l.wf() && !(l.phase is Finished),
            Phase::DataMount => !fits_fat32(self.size),
            Phase::Copy => fits_fat32(self.size) || self.mounts.len() > 0,
            Phase::DataUnmount => !fits_fat32(self.size) && self.mounts.len() > 0,
            Phase::Config => self.config is Some,
            Phase::Unwind => self.mounts.len() > 0,
            Phase::Finished => self.mounts.len() == 0,
            Phase::DiskReport | Phase::DiskFormat => self.superfloppy,
            Phase::Geometry
            | Phase::PartitionReport
            | Phase::Partition
            | Phase::Settle
            | Phase::BootReport
            | Phase::BootFormat
            | Phase::BootUuid
            | Phase::DataReport
            | Phase::DataFormat => !self.superfloppy,
            _ => true,
        }
    }

    /// The boot partition; the disk itself where it has no partitions.
    pub open spec fn boot_device(self) -> Seq<char> {
        if self.superfloppy {
            self.disk
        } else {
            partition(self.disk, 1)
        }
    }

    /// The data partition.
    pub open spec fn data_device(self) -> Seq<char> {
        partition(self.disk, 2)
    }

    /// Whether the boot partition may be marked as an EFI system partition.
    pub open spec fn marks_esp(self) -> bool {
        match self.sbc {
            Some(i) => sbc_profiles()[i].mark_esp,
            None => true,
        }
    }

    /// The name of the single-board computer that the image was found to be for.
    pub open spec fn board(self) -> Option<Seq<char>> {
        match self.sbc {
            Some(i) => Some(sbc_profiles()[i].name),
            None => None,
        }
    }

    /// Where the image goes: to the boot partition if it fits on FAT32, else to the data
    /// partition.
    pub open spec fn copy_target(self) -> Seq<char> {
        if fits_fat32(self.size) {
            joined_path(self.boot, "system.img"@)
        } else {
            joined_path(self.data, "system"@)
        }
    }

    /// Where the settings go.
    pub open spec fn config_target(self) -> Seq<char> {
        joined_path(self.boot, "system.ini"@)
    }

    /// The report that the current step has begun.
    pub open spec fn report(self) -> ActionView {
        ActionView::Report(
            ProgressView {
                step: self.step,
                total: step_count(self.superfloppy),
                message: step_message(self.phase),
                fraction: None,
            },
        )
    }

    /// The report of how much of the system image has been copied.
    pub open spec fn copy_report(self, share: Ratio) -> ProgressView {
        ProgressView {
            step: self.step,
            total: step_count(self.superfloppy),
            message: "Copying system image"@,
            fraction: Some(share),
        }
    }

    /// What is to be done next.
    pub open spec fn request(self) -> ActionView {
        match self.phase {
            Phase::ImageSize => ActionView::FileSize(self.image),
            Phase::CheckReport
            | Phase::DiskReport
            | Phase::PartitionReport
            | Phase::BootReport
            | Phase::DataReport
            | Phase::LoaderReport
            | Phase::CopyReport
            | Phase::ConfigReport
            | Phase::SyncReport => self.report(),
            Phase::ImageHead => ActionView::ReadHead(self.image),
            Phase::ImageMount => ActionView::Mount {
                source: self.image,
                fstype: None,
                options: seq!["ro"@],
                looped: true,
            },
            Phase::Marker(i) => ActionView::Exists(
                joined_path(self.root->0, sbc_profiles()[i as int].marker),
            ),
            Phase::DiskFormat => ActionView::Run("mkfs.vfat"@, vfat_args(self.disk, true)),
            Phase::Geometry => ActionView::DiskAttributes(file_name_or_empty(self.disk)),
            Phase::Partition => ActionView::Run(
                "parted"@,
                parted_args(self.disk, boot_gib(self.size), self.bios, self.marks_esp()),
            ),
            Phase::Settle => ActionView::Run("udevadm"@, seq!["settle"@]),
            Phase::BootWait(_) => ActionView::Exists(self.boot_device()),
            Phase::DataWait(_) => ActionView::Exists(self.data_device()),
            Phase::BootPause(_) | Phase::DataPause(_) => ActionView::Sleep(WAIT_PAUSE),
            Phase::BootFormat => ActionView::Run(
                "mkfs.vfat"@,
                vfat_args(self.boot_device(), false),
            ),
            Phase::BootUuid => ActionView::ReadUuid(self.boot_device()),
            Phase::DataFormat => ActionView::Run(
                "mkfs.btrfs"@,
                btrfs_args(self.data_device(), self.uuid),
            ),
            Phase::BootMount => ActionView::Mount {
                source: self.boot_device(),
                fstype: Some("vfat"@),
                options: seq!["fmask=177"@, "dmask=077"@],
                looped: false,
            },
            Phase::BootFiles => (self.files->0).request(),
            Phase::Loaders => (self.loaders->0).request(),
            Phase::DataMount => ActionView::Mount {
                source: self.data_device(),
                fstype: Some("btrfs"@),
                options: Seq::empty(),
                looped: false,
            },
            Phase::Copy => ActionView::CopyImage {
                from: self.image,
                to: self.copy_target(),
                size: self.size as u64,
            },
            Phase::DataUnmount | Phase::Unwind => ActionView::Unmount(self.mounts.last()),
            Phase::Config => ActionView::WriteText {
                path: self.config_target(),
                text: self.config->0,
            },
            Phase::Sync => ActionView::Run("sync"@, Seq::empty()),
            Phase::Finished => ActionView::Finish(self.result),
        }
    }

    /// The installation in another phase of the same step.
    pub open spec fn at(self, phase: Phase) -> InstallView {
        InstallView { phase, ..self }
    }

    /// The installation at the beginning of the next step.
    pub open spec fn begin(self, phase: Phase) -> InstallView {
        InstallView { phase, step: self.step + 1, ..self }
    }

    /// The installation with nothing but unmounting left.
    pub open spec fn ending(self, result: Result<(), Seq<char>>) -> InstallView {
        InstallView {
            phase: if self.mounts.len() > 0 {
                Phase::Unwind
            } else {
                Phase::Finished
            },
            result,
            ..self
        }
    }

    /// The installation failed.
    pub open spec fn failed(self, e: Seq<char>) -> InstallView {
        self.ending(Err(e))
    }

    /// The installation with one more directory mounted.
    pub open spec fn mounted(self, dir: Seq<char>) -> InstallView {
        InstallView { mounts: self.mounts.push(dir), ..self }
    }

    /// The installation with the latest mount undone.
    pub open spec fn unmounted(self) -> InstallView {
        InstallView { mounts: self.mounts.drop_last(), ..self }
    }

    /// The installation once the computer that the image is for is known.
    pub open spec fn knowing_sbc(self, sbc: Option<int>) -> InstallView {
        let next = InstallView { sbc, ..self };
        if self.superfloppy {
            next.begin(Phase::DiskReport)
        } else {
            next.at(Phase::Geometry)
        }
    }

    /// The installation at the start of installing boot loaders.
    ///
    /// A single-board computer starts by its own boot files: it is not set up for BIOS, and
    /// it can do without EFI boot loaders.
    pub open spec fn before_loaders(self) -> InstallView {
        let bios_disk = if self.sbc is None && self.bios {
            Some(self.disk)
        } else {
            None
        };
        InstallView {
            loaders: Some(LoaderView::start(self.root, self.boot, bios_disk, self.sbc is None)),
            phase: Phase::Loaders,
            ..self
        }
    }

    /// The installation at the start of copying boot files, where there are such, else of
    /// installing boot loaders.
    pub open spec fn before_boot_files(self) -> InstallView {
        if self.root is Some && (self.sbc matches Some(i) && sbc_profiles()[i].boot_files) {
            InstallView {
                files: Some(FilesView::start(self.root->0, self.boot)),
                phase: Phase::BootFiles,
                ..self
            }
        } else {
            self.before_loaders()
        }
    }

    /// The installation once a partition has not appeared after `n` more looks.
    pub open spec fn after_pause(self, n: u32, again: Phase, device: Seq<char>) -> InstallView {
        if n <= 1 {
            self.failed("partition device "@ + device + " did not appear"@)
        } else {
            self.at(again)
        }
    }

    /// The installation after the reply to what it asked for.
    pub open spec fn advance(self, reply: ReplyView) -> InstallView {
        match (self.phase, reply) {
            (Phase::ImageSize, ReplyView::Size(r)) => match r {
                Ok(n) => {
                    let next = InstallView { size: n as nat, ..self };
                    if self.superfloppy && !fits_fat32(n as nat) {
                        next.failed(
                            "superfloppy mode requires a system image smaller than 4 GiB"@,
                        )
                    } else {
                        next.begin(Phase::CheckReport)
                    }
                },
                Err(e) => self.failed(failure("stat"@, self.image, e)),
            },
            (Phase::CheckReport, _) => self.at(Phase::ImageHead),
            (Phase::ImageHead, ReplyView::Head(head)) => if is_squashfs_head(head) {
                self.at(Phase::ImageMount)
            } else {
                self.failed(self.image + " is not a valid squashfs image"@)
            },
            (Phase::ImageMount, ReplyView::Text(r)) => match r {
                Ok(dir) => InstallView { root: Some(dir), ..self }.mounted(dir).at(
                    Phase::Marker(0),
                ),
                Err(_) => self.knowing_sbc(None),
            },
            (Phase::Marker(i), ReplyView::Answer(there)) => if there {
                self.knowing_sbc(Some(i as int))
            } else if i + 1 < SBC_COUNT {
                self.at(Phase::Marker((i + 1) as usize))
            } else {
                self.knowing_sbc(None)
            },
            (Phase::DiskReport, _) => self.at(Phase::DiskFormat),
            (Phase::DiskFormat, ReplyView::Outcome(r)) => match r {
                Ok(_) => self.at(Phase::BootMount),
                Err(e) => self.failed(e),
            },
            (Phase::Geometry, ReplyView::Attributes(sectors, block)) => InstallView {
                bios: starts_by_bios(disk_bytes(sectors), sector_length(block)),
                ..self
            }.begin(Phase::PartitionReport),
            (Phase::PartitionReport, _) => self.at(Phase::Partition),
            (Phase::Partition, ReplyView::Outcome(r)) => match r {
                Ok(_) => self.at(Phase::Settle),
                Err(e) => self.failed(e),
            },
            (Phase::Settle, _) => self.at(Phase::BootWait(WAIT_TRIES)),
            (Phase::BootWait(n), ReplyView::Answer(there)) => if there {
                self.at(Phase::DataWait(WAIT_TRIES))
            } else {
                self.at(Phase::BootPause(n))
            },
            (Phase::BootPause(n), _) => self.after_pause(
                n,
                Phase::BootWait((n - 1) as u32),
                self.boot_device(),
            ),
            (Phase::DataWait(n), ReplyView::Answer(there)) => if there {
                self.begin(Phase::BootReport)
            } else {
                self.at(Phase::DataPause(n))
            },
            (Phase::DataPause(n), _) => self.after_pause(
                n,
                Phase::DataWait((n - 1) as u32),
                self.data_device(),
            ),
            (Phase::BootReport, _) => self.at(Phase::BootFormat),
            (Phase::BootFormat, ReplyView::Outcome(r)) => match r {
                Ok(_) => self.at(Phase::BootUuid),
                Err(e) => self.failed(e),
            },
            (Phase::BootUuid, ReplyView::Text(r)) => match r {
                Ok(uuid) => InstallView { uuid, ..self }.begin(Phase::DataReport),
                Err(e) => self.failed(e),
            },
            (Phase::DataReport, _) => self.at(Phase::DataFormat),
            (Phase::DataFormat, ReplyView::Outcome(r)) => match r {
                Ok(_) => self.at(Phase::BootMount),
                Err(e) => self.failed(e),
            },
            (Phase::BootMount, ReplyView::Text(r)) => match r {
                Ok(dir) => InstallView { boot: dir, ..self }.mounted(dir).begin(
                    Phase::LoaderReport,
                ),
                Err(e) => self.failed(e),
            },
            (Phase::LoaderReport, _) => self.before_boot_files(),
            (Phase::BootFiles, r) => {
                let files = (self.files->0).advance(r);
                let next = InstallView { files: Some(files), ..self };
                if files.phase is Finished {
                    match files.result {
                        Ok(_) => next.before_loaders(),
                        Err(e) => next.failed(e),
                    }
                } else {
                    next
                }
            },
            (Phase::Loaders, r) => {
                let loaders = (self.loaders->0).advance(r);
                let next = InstallView { loaders: Some(loaders), ..self };
                if loaders.phase is Finished {
                    match loaders.result {
                        Ok(_) => next.begin(Phase::CopyReport),
                        Err(e) => next.failed(e),
                    }
                } else {
                    next
                }
            },
            (Phase::CopyReport, _) => if fits_fat32(self.size) {
                self.at(Phase::Copy)
            } else {
                self.at(Phase::DataMount)
            },
            (Phase::DataMount, ReplyView::Text(r)) => match r {
                Ok(dir) => InstallView { data: dir, ..self }.mounted(dir).at(Phase::Copy),
                Err(e) => self.failed(e),
            },
            (Phase::Copy, ReplyView::Outcome(r)) => match r {
                Ok(_) => if fits_fat32(self.size) {
                    self.begin(Phase::ConfigReport)
                } else {
                    self.at(Phase::DataUnmount)
                },
                Err(e) => self.failed(e),
            },
            (Phase::DataUnmount, _) => self.unmounted().begin(Phase::ConfigReport),
            (Phase::ConfigReport, _) => if self.config is Some {
                self.at(Phase::Config)
            } else {
                self.begin(Phase::SyncReport)
            },
            (Phase::Config, ReplyView::Outcome(r)) => match r {
                Ok(_) => self.begin(Phase::SyncReport),
                Err(e) => self.failed(failure("write"@, self.config_target(), e)),
            },
            (Phase::SyncReport, _) => self.at(Phase::Sync),
            (Phase::Sync, _) => self.ending(Ok(())),
            (Phase::Unwind, _) => self.unmounted().ending(self.result),
            (Phase::Finished, _) => self,
            _ => self.failed(stray_reply()),
        }
    }
}

/// An installation under way.
///
/// It says what is to be done next, as an [`Action`], and is told what came of it, as a
/// [`Reply`], until it finishes with its result. Whatever the result, all that it mounted
/// is unmounted before.
#[derive(Debug)]
pub struct Installer {
    disk: String,
    image: String,
    superfloppy: bool,
    config: Option<String>,
    phase: Phase,
    step: usize,
    size: u64,
    root: Option<String>,
    sbc: Option<usize>,
    bios: bool,
    uuid: String,
    boot: String,
    data: String,
    mounts: Vec<String>,
    files: Option<BootFileCopy>,
    loaders: Option<BootloaderSetup>,
    result: Result<(), String>,
}

impl View for Installer {
    type V = InstallView;

    closed spec fn view(&self) -> InstallView {
        InstallView {
            disk: self.disk@,
            image: self.image@,
            superfloppy: self.superfloppy,
            config: owned_view(self.config),
            phase: self.phase,
            step: self.step as nat,
            size: self.size as nat,
            root: owned_view(self.root),
            sbc: match self.sbc {
                Some(i) => Some(i as int),
                None => None,
            },
            bios: self.bios,
            uuid: self.uuid@,
            boot: self.boot@,
            data: self.data@,
            mounts: strings(self.mounts@),
            files: match self.files {
                Some(f) => Some(f@),
                None => None,
            },
            loaders: match self.loaders {
                Some(l) => Some(l@),
                None => None,
            },
            result: outcome_view(self.result),
        }
    }
}

/// The number of steps of an installation.
pub fn total_steps(superfloppy: bool) -> (r: usize)
    ensures
        r == step_count(superfloppy),
{
    if superfloppy {
        6
    } else {
        8
    }
}

/// What the step that a phase shows is called.
fn message_of(phase: Phase) -> (r: &'static str)
    ensures
        r@ == step_message(phase),
{
    match phase {
        Phase::CheckReport => "Checking system image",
        Phase::DiskReport => "Formatting disk (FAT32)",
        Phase::PartitionReport => "Creating partitions",
        Phase::BootReport => "Formatting boot partition (FAT32)",
        Phase::DataReport => "Formatting data partition (BTRFS)",
        Phase::LoaderReport => "Installing bootloader",
        Phase::CopyReport => "Copying system image",
        Phase::ConfigReport => "Writing configuration",
        _ => "Syncing",
    }
}

/// A copy of an optional text.
fn copy_of(o: &Option<String>) -> (r: Option<String>)
    ensures
        owned_view(r) == owned_view(*o),
{
    match o {
        Some(t) => Some(t.clone()),
        None => None,
    }
}

/// A text that is there, else an empty one.
fn text_of(o: &Option<String>) -> (r: &str)
    ensures
        r@ == (match owned_view(*o) {
            Some(t) => t,
            None => ""@,
        }),
{
    match o {
        Some(t) => t.as_str(),
        None => "",
    }
}

impl Installer {
    /// Starts an installation.
    pub fn new(opts: &InstallOptions) -> (r: Installer)
        ensures
            r@ == InstallView::start(opts@),
            r@.wf(),
    {
        let r = Installer {
            disk: opts.disk.clone(),
            image: opts.image.clone(),
            superfloppy: opts.superfloppy,
            config: system_ini(opts),
            phase: Phase::ImageSize,
            step: 0,
            size: 0,
            root: None,
            sbc: None,
            bios: false,
            uuid: "".to_owned(),
            boot: "".to_owned(),
            data: "".to_owned(),
            mounts: Vec::new(),
            files: None,
            loaders: None,
            result: Ok(()),
        };
        assert(strings(r.mounts@) =~= Seq::empty());
        r
    }

    fn boot_device(&self) -> (r: String)
        ensures
            r@ == self@.boot_device(),
    {
        if self.superfloppy {
            self.disk.clone()
        } else {
            partition_path(self.disk.as_str(), 1)
        }
    }

    fn data_device(&self) -> (r: String)
        ensures
            r@ == self@.data_device(),
    {
        partition_path(self.disk.as_str(), 2)
    }

    fn marks_esp(&self) -> (r: bool)
        requires
            self@.wf(),
        ensures
            r == self@.marks_esp(),
    {
        match self.sbc {
            Some(i) => sbc_profile(i).mark_esp,
            None => true,
        }
    }

    fn fits(&self) -> (r: bool)
        ensures
            r == fits_fat32(self@.size),
    {
        self.size < FAT32_LIMIT
    }

    fn copy_target(&self) -> (r: String)
        ensures
            r@ == self@.copy_target(),
    {
        if self.fits() {
            join_path(self.boot.as_str(), "system.img")
        } else {
            join_path(self.data.as_str(), "system")
        }
    }

    fn config_target(&self) -> (r: String)
        ensures
            r@ == self@.config_target(),
    {
        join_path(self.boot.as_str(), "system.ini")
    }

    fn last_mount(&self) -> (r: String)
        requires
            self@.mounts.len() > 0,
        ensures
            r@ == self@.mounts.last(),
    {
        let n: usize = self.mounts.len();
        assert(strings(self.mounts@)[n - 1] == self.mounts@[n - 1]@);
        self.mounts[n - 1].clone()
    }

    fn report(&self) -> (r: Action)
        ensures
            r@ == self@.report(),
    {
        Action::Report(
            Progress {
                step: self.step,
                total: total_steps(self.superfloppy),
                message: message_of(self.phase),
                fraction: None,
            },
        )
    }

    /// The name of the single-board computer that the image was found to be for; none as
    /// long as it was not found to be for one.
    pub fn board(&self) -> (r: Option<&'static str>)
        requires
            self@.wf(),
        ensures
            option_view(r) == self@.board(),
    {
        match self.sbc {
            Some(i) => Some(sbc_profile(i).name),
            None => None,
        }
    }

    /// The report of how much of the system image has been copied.
    pub fn copy_report(&self, share: Ratio) -> (r: Progress<'static>)
        ensures
            r@ == self@.copy_report(share),
    {
        Progress {
            step: self.step,
            total: total_steps(self.superfloppy),
            message: "Copying system image",
            fraction: Some(share),
        }
    }

    /// Says what is to be done next.
    pub fn request(&self) -> (r: Action)
        requires
            self@.wf(),
        ensures
            r@ == self@.request(),
    {
        match self.phase {
            Phase::ImageSize => Action::FileSize(self.image.clone()),
            Phase::CheckReport
            | Phase::DiskReport
            | Phase::PartitionReport
            | Phase::BootReport
            | Phase::DataReport
            | Phase::LoaderReport
            | Phase::CopyReport
            | Phase::ConfigReport
            | Phase::SyncReport => self.report(),
            Phase::ImageHead => Action::ReadHead(self.image.clone()),
            Phase::ImageMount => {
                let options: Vec<&'static str> = vec!["ro"];
                assert(texts(options@) =~= seq!["ro"@]);
                Action::Mount { source: self.image.clone(), fstype: None, options, looped: true }
            },
            Phase::Marker(i) => Action::Exists(
                join_path(text_of(&self.root), sbc_profile(i).marker),
            ),
            Phase::DiskFormat => Action::Run("mkfs.vfat", vfat_arguments(self.disk.as_str(), true)),
            Phase::Geometry => Action::DiskAttributes(
                file_name_text(self.disk.as_str()).to_owned(),
            ),
            Phase::Partition => {
                let gib: u64 = if self.fits() {
                    least_capacity_gib(self.size)
                } else {
                    1
                };
                Action::Run(
                    "parted",
                    partition_commands(self.disk.as_str(), gib, self.bios, self.marks_esp()),
                )
            },
            Phase::Settle => {
                let args: Vec<String> = vec!["settle".to_owned()];
                assert(strings(args@) =~= seq!["settle"@]);
                Action::Run("udevadm", args)
            },
            Phase::BootWait(_) => Action::Exists(self.boot_device()),
            Phase::DataWait(_) => Action::Exists(self.data_device()),
            Phase::BootPause(_) | Phase::DataPause(_) => Action::Sleep(WAIT_PAUSE),
            Phase::BootFormat => Action::Run(
                "mkfs.vfat",
                vfat_arguments(self.boot_device().as_str(), false),
            ),
            Phase::BootUuid => Action::ReadUuid(self.boot_device()),
            Phase::DataFormat => Action::Run(
                "mkfs.btrfs",
                btrfs_arguments(self.data_device().as_str(), self.uuid.as_str()),
            ),
            Phase::BootMount => {
                let options: Vec<&'static str> = vec!["fmask=177", "dmask=077"];
                assert(texts(options@) =~= seq!["fmask=177"@, "dmask=077"@]);
                Action::Mount {
                    source: self.boot_device(),
                    fstype: Some("vfat"),
                    options,
                    looped: false,
                }
            },
            Phase::BootFiles => match &self.files {
                Some(f) => f.request(),
                None => Action::ProbeGrub,
            },
            Phase::Loaders => match &self.loaders {
                Some(l) => l.request(),
                None => Action::ProbeGrub,
            },
            Phase::DataMount => {
                let options: Vec<&'static str> = Vec::new();
                assert(texts(options@) =~= Seq::empty());
                Action::Mount {
                    source: self.data_device(),
                    fstype: Some("btrfs"),
                    options,
                    looped: false,
                }
            },
            Phase::Copy => Action::CopyImage {
                from: self.image.clone(),
                to: self.copy_target(),
                size: self.size,
            },
            Phase::DataUnmount | Phase::Unwind => Action::Unmount(self.last_mount()),
            Phase::Config => Action::WriteText {
                path: self.config_target(),
                text: text_of(&self.config).to_owned(),
            },
            Phase::Sync => {
                let args: Vec<String> = Vec::new();
                assert(strings(args@) =~= Seq::empty());
                Action::Run("sync", args)
            },
            Phase::Finished => Action::Finish(
                match &self.result {
                    Ok(_) => Ok(()),
                    Err(e) => Err(e.clone()),
                },
            ),
        }
    }

    fn begin(&mut self, phase: Phase)
        requires
            old(self)@.step < usize::MAX,
        ensures
            final(self)@ == old(self)@.begin(phase),
    {
        self.phase = phase;
        self.step = self.step + 1;
    }

    fn end(&mut self, result: Result<(), String>)
        ensures
            final(self)@ == old(self)@.ending(outcome_view(result)),
    {
        self.phase = if self.mounts.len() > 0 {
            Phase::Unwind
        } else {
            Phase::Finished
        };
        self.result = result;
    }

    fn fail(&mut self, e: String)
        ensures
            final(self)@ == old(self)@.failed(e@),
    {
        self.end(Err(e));
    }

    fn add_mount(&mut self, dir: String)
        ensures
            final(self)@ == old(self)@.mounted(dir@),
    {
        let ghost was = self.mounts@;
        self.mounts.push(dir);
        assert(strings(self.mounts@) =~= strings(was).push(dir@));
    }

    fn drop_mount(&mut self)
        requires
            old(self)@.mounts.len() > 0,
        ensures
            final(self)@ == old(self)@.unmounted(),
    {
        let ghost was = self.mounts@;
        let _ = self.mounts.pop();
        assert(strings(self.mounts@) =~= strings(was).drop_last());
    }

    fn know_sbc(&mut self, sbc: Option<usize>)
        requires
            old(self)@.step < usize::MAX,
        ensures
            final(self)@ == old(self)@.knowing_sbc(
                match sbc {
                    Some(i) => Some(i as int),
                    None => None,
                },
            ),
    {
        self.sbc = sbc;
        if self.superfloppy {
            self.begin(Phase::DiskReport);
        } else {
            self.phase = Phase::Geometry;
        }
    }

    fn start_loaders(&mut self)
        ensures
            final(self)@ == old(self)@.before_loaders(),
            final(self)@.loaders matches Some(l) && l.wf(),
    {
        let bios_disk: Option<String> = if self.sbc.is_none() && self.bios {
            Some(self.disk.clone())
        } else {
            None
        };
        let loaders = BootloaderSetup::new(
            copy_of(&self.root),
            self.boot.clone(),
            bios_disk,
            self.sbc.is_none(),
        );
        self.loaders = Some(loaders);
        self.phase = Phase::Loaders;
    }

    fn start_boot_files(&mut self)
        requires
            old(self)@.sbc matches Some(i) ==> 0 <= i < SBC_COUNT,
        ensures
            final(self)@ == old(self)@.before_boot_files(),
            final(self)@.phase is BootFiles ==> (final(self)@.files matches Some(f) && f.wf()),
            final(self)@.phase is Loaders ==> (final(self)@.loaders matches Some(l) && l.wf()),
    {
        let own = match self.sbc {
            Some(i) => sbc_profile(i).boot_files,
            None => false,
        };
        if self.root.is_some() && own {
            let files = BootFileCopy::new(text_of(&self.root), self.boot.clone());
            self.files = Some(files);
            self.phase = Phase::BootFiles;
        } else {
            self.start_loaders();
        }
    }

    fn pause_over(&mut self, n: u32, again: Phase, device: &str)
        ensures
            final(self)@ == old(self)@.after_pause(n, again, device@),
    {
        if n <= 1 {
            let mut text = "partition device ".to_owned();
            text.append(device);
            text.append(" did not appear");
            self.fail(text);
        } else {
            self.phase = again;
        }
    }

    fn answer_boot_files(&mut self, reply: Reply)
        requires
            old(self)@.wf(),
            old(self)@.phase is BootFiles,
        ensures
            final(self)@ == old(self)@.advance(reply@),
            final(self)@.wf(),
    {
        let mut outcome: Option<Result<(), String>> = None;
        match self.files.take() {
            Some(mut f) => {
                f.answer(reply);
                outcome = f.outcome();
                self.files = Some(f);
            },
            None => {},
        }
        match outcome {
            Some(r) => {
                match r {
                    Ok(_) => {
                        self.start_loaders();
                    },
                    Err(e) => {
                        self.fail(e);
                    },
                }
            },
            None => {},
        }
    }

    fn answer_loaders(&mut self, reply: Reply)
        requires
            old(self)@.wf(),
            old(self)@.phase is Loaders,
        ensures
            final(self)@ == old(self)@.advance(reply@),
            final(self)@.wf(),
    {
        let mut outcome: Option<Result<(), String>> = None;
        match self.loaders.take() {
            Some(mut l) => {
                l.answer(reply);
                outcome = l.outcome();
                self.loaders = Some(l);
            },
            None => {},
        }
        match outcome {
            Some(r) => {
                match r {
                    Ok(_) => {
                        self.begin(Phase::CopyReport);
                    },
                    Err(e) => {
                        self.fail(e);
                    },
                }
            },
            None => {},
        }
    }

    /// Goes on to `phase` if the action succeeded; fails with its error if not.
    fn after_outcome(&mut self, r: Result<(), String>, phase: Phase)
        ensures
            final(self)@ == (match outcome_view(r) {
                Ok(_) => old(self)@.at(phase),
                Err(e) => old(self)@.failed(e),
            }),
    {
        match r {
            Ok(_) => {
                self.phase = phase;
            },
            Err(e) => {
                self.fail(e);
            },
        }
    }

    /// Takes the reply to what was asked for.
    #[verifier::rlimit(60)]
    pub fn answer(&mut self, reply: Reply)
        requires
            old(self)@.wf(),
        ensures
            final(self)@ == old(self)@.advance(reply@),
            final(self)@.wf(),
    {
        match (self.phase, reply) {
            (Phase::ImageSize, Reply::Size(r)) => {
                match r {
                    Ok(n) => {
                        self.size = n;
                        if self.superfloppy && !self.fits() {
                            self.fail(
                                "superfloppy mode requires a system image smaller than 4 GiB".to_owned(),
                            );
                        } else {
                            self.begin(Phase::CheckReport);
                        }
                    },
                    Err(e) => {
                        let text = failure_text("stat", self.image.as_str(), e.as_str());
                        self.fail(text);
                    },
                }
            },
            (Phase::CheckReport, _) => {
                self.phase = Phase::ImageHead;
            },
            (Phase::ImageHead, Reply::Head(head)) => {
                if has_squashfs_magic(&head) {
                    self.phase = Phase::ImageMount;
                } else {
                    let mut text = self.image.clone();
                    text.append(" is not a valid squashfs image");
                    self.fail(text);
                }
            },
            (Phase::ImageMount, Reply::Text(r)) => {
                match r {
                    Ok(dir) => {
                        self.root = Some(dir.clone());
                        self.add_mount(dir);
                        self.phase = Phase::Marker(0);
                    },
                    Err(_) => {
                        self.know_sbc(None);
                    },
                }
            },
            (Phase::Marker(i), Reply::Answer(there)) => {
                if there {
                    self.know_sbc(Some(i));
                } else if i + 1 < SBC_COUNT {
                    self.phase = Phase::Marker(i + 1);
                } else {
                    self.know_sbc(None);
                }
            },
            (Phase::DiskReport, _) => {
                self.phase = Phase::DiskFormat;
            },
            (Phase::DiskFormat, Reply::Outcome(r)) => {
                self.after_outcome(r, Phase::BootMount);
            },
            (Phase::Geometry, Reply::Attributes(sectors, block)) => {
                let s: Option<&str> = match &sectors {
                    Some(t) => Some(t.as_str()),
                    None => None,
                };
                let b: Option<&str> = match &block {
                    Some(t) => Some(t.as_str()),
                    None => None,
                };
                let (bytes, sector) = disk_geometry(s, b);
                self.bios = bios_compatible(bytes, sector);
                self.begin(Phase::PartitionReport);
            },
            (Phase::PartitionReport, _) => {
                self.phase = Phase::Partition;
            },
            (Phase::Partition, Reply::Outcome(r)) => {
                self.after_outcome(r, Phase::Settle);
            },
            (Phase::Settle, _) => {
                self.phase = Phase::BootWait(WAIT_TRIES);
            },
            (Phase::BootWait(n), Reply::Answer(there)) => {
                self.phase = if there {
                    Phase::DataWait(WAIT_TRIES)
                } else {
                    Phase::BootPause(n)
                };
            },
            (Phase::BootPause(n), _) => {
                let device = self.boot_device();
                self.pause_over(n, Phase::BootWait(n - 1), device.as_str());
            },
            (Phase::DataWait(n), Reply::Answer(there)) => {
                if there {
                    self.begin(Phase::BootReport);
                } else {
                    self.phase = Phase::DataPause(n);
                }
            },
            (Phase::DataPause(n), _) => {
                let device = self.data_device();
                self.pause_over(n, Phase::DataWait(n - 1), device.as_str());
            },
            (Phase::BootReport, _) => {
                self.phase = Phase::BootFormat;
            },
            (Phase::BootFormat, Reply::Outcome(r)) => {
                self.after_outcome(r, Phase::BootUuid);
            },
            (Phase::BootUuid, Reply::Text(r)) => {
                match r {
                    Ok(uuid) => {
                        self.uuid = uuid;
                        self.begin(Phase::DataReport);
                    },
                    Err(e) => {
                        self.fail(e);
                    },
                }
            },
            (Phase::DataReport, _) => {
                self.phase = Phase::DataFormat;
            },
            (Phase::DataFormat, Reply::Outcome(r)) => {
                self.after_outcome(r, Phase::BootMount);
            },
            (Phase::BootMount, Reply::Text(r)) => {
                match r {
                    Ok(dir) => {
                        self.boot = dir.clone();
                        self.add_mount(dir);
                        self.begin(Phase::LoaderReport);
                    },
                    Err(e) => {
                        self.fail(e);
                    },
                }
            },
            (Phase::LoaderReport, _) => {
                self.start_boot_files();
            },
            (Phase::BootFiles, r) => {
                self.answer_boot_files(r);
            },
            (Phase::Loaders, r) => {
                self.answer_loaders(r);
            },
            (Phase::CopyReport, _) => {
                self.phase = if self.fits() {
                    Phase::Copy
                } else {
                    Phase::DataMount
                };
            },
            (Phase::DataMount, Reply::Text(r)) => {
                match r {
                    Ok(dir) => {
                        self.data = dir.clone();
                        self.add_mount(dir);
                        self.phase = Phase::Copy;
                    },
                    Err(e) => {
                        self.fail(e);
                    },
                }
            },
            (Phase::Copy, Reply::Outcome(r)) => {
                match r {
                    Ok(_) => {
                        if self.fits() {
                            self.begin(Phase::ConfigReport);
                        } else {
                            self.phase = Phase::DataUnmount;
                        }
                    },
                    Err(e) => {
                        self.fail(e);
                    },
                }
            },
            (Phase::DataUnmount, _) => {
                self.drop_mount();
                self.begin(Phase::ConfigReport);
            },
            (Phase::ConfigReport, _) => {
                if self.config.is_some() {
                    self.phase = Phase::Config;
                } else {
                    self.begin(Phase::SyncReport);
                }
            },
            (Phase::Config, Reply::Outcome(r)) => {
                match r {
                    Ok(_) => {
                        self.begin(Phase::SyncReport);
                    },
                    Err(e) => {
                        let target = self.config_target();
                        let text = failure_text("write", target.as_str(), e.as_str());
                        self.fail(text);
                    },
                }
            },
            (Phase::SyncReport, _) => {
                self.phase = Phase::Sync;
            },
            (Phase::Sync, _) => {
                self.end(Ok(()));
            },
            (Phase::Unwind, _) => {
                self.drop_mount();
                let result = match &self.result {
                    Ok(_) => Ok(()),
                    Err(e) => Err(e.clone()),
                };
                self.end(result);
            },
            (Phase::Finished, _) => {},
            _ => {
                self.fail("unexpected reply".to_owned());
            },
        }
    }
}

} // verus!
