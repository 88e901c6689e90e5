use genpack_install::backend::{InstallOptions, Ratio};
use genpack_install::bootloader::{select_efi_names, BootloaderSetup};
use genpack_install::effects::{Action, Entry, EntryKind, Reply};
use genpack_install::install::{total_steps, Installer};

const GIB: u64 = 1 << 30;

fn options(disk: &str, superfloppy: bool) -> InstallOptions {
    InstallOptions {
        disk: disk.to_string(),
        image: "/b/a.squashfs".to_string(),
        superfloppy,
        timezone: "UTC".to_string(),
        locale: String::new(),
        hostname: "host".to_string(),
        ssh_pubkey: String::new(),
    }
}

/// A short name for an action.
fn name(a: &Action) -> String {
    match a {
        Action::Report(p) => format!("report {}/{} {}", p.step, p.total, p.message),
        Action::FileSize(p) => format!("size {}", p),
        Action::ReadHead(p) => format!("head {}", p),
        Action::Exists(p) => format!("exists {}", p),
        Action::IsDirectory(p) => format!("isdir {}", p),
        Action::ProbeGrub => "grub?".to_string(),
        Action::Sleep(n) => format!("sleep {}", n),
        Action::DiskAttributes(n) => format!("attributes {}", n),
        Action::Run(p, args) => format!("run {} {}", p, args.join(" ")),
        Action::ReadUuid(d) => format!("uuid {}", d),
        Action::Mount { source, fstype, options, looped } => format!(
            "mount {} {} {} {}",
            source,
            fstype.unwrap_or("auto"),
            options.join(","),
            looped
        ),
        Action::Unmount(d) => format!("unmount {}", d),
        Action::CreateDir(d) => format!("mkdir {}", d),
        Action::ListDir(d) => format!("list {}", d),
        Action::CopyFile { from, to } => format!("copy {} {}", from, to),
        Action::CopyImage { from, to, size } => format!("image {} {} {}", from, to, size),
        Action::ReadText(p) => format!("read {}", p),
        Action::WriteText { path, text } => format!("write {} {:?}", path, text),
        Action::RemoveFile(p) => format!("remove {}", p),
        Action::Finish(r) => format!("{:?}", r),
    }
}

/// What a machine says on which all goes well.
struct World {
    size: u64,
    sectors: &'static str,
    sbc: bool,
    mounts: bool,
    failing: &'static str,
}

impl World {
    fn plain() -> World {
        World { size: GIB, sectors: "1000000\n", sbc: false, mounts: true, failing: "-" }
    }

    fn reply(&self, a: &Action) -> Reply {
        let n = name(a);
        let failed = n.starts_with(self.failing);
        let e = "broken".to_string();
        let entry = |name: &str, regular: bool| Entry {
            name: name.to_string(),
            kind: EntryKind::File,
            regular,
        };
        match a {
            Action::FileSize(_) => Reply::Size(if failed { Err(e) } else { Ok(self.size) }),
            Action::ReadHead(_) => Reply::Head(if failed { None } else { Some(b"hsqs".to_vec()) }),
            Action::Exists(p) => {
                Reply::Answer(!failed && (p != "/m/a.squashfs/boot/bootcode.bin" || self.sbc))
            }
            Action::IsDirectory(_) | Action::ProbeGrub => Reply::Answer(!failed),
            Action::DiskAttributes(_) => {
                Reply::Attributes(Some(self.sectors.to_string()), Some("512\n".to_string()))
            }
            Action::ReadUuid(_) if !failed => Reply::Text(Ok("1A2B".to_string())),
            Action::Mount { source, .. } if !failed && (self.mounts || source != "/b/a.squashfs") => {
                Reply::Text(Ok(format!("/m/{}", source.rsplit('/').next().unwrap())))
            }
            Action::Mount { .. } | Action::ReadUuid(_) | Action::ReadText(_) => Reply::Text(Err(e)),
            Action::ListDir(d) => Reply::Entries(if failed {
                Err(e)
            } else if d.ends_with("boot") {
                Ok(vec![entry("start4.elf", true)])
            } else {
                Ok(vec![
                    entry("bootx64.efi", true),
                    entry("boot.img", true),
                    entry("bootaa64.efi", false),
                    entry("bootia32.efi", true),
                ])
            }),
            Action::Run(..)
            | Action::CreateDir(_)
            | Action::CopyFile { .. }
            | Action::CopyImage { .. }
            | Action::WriteText { .. } => Reply::Outcome(if failed { Err(e) } else { Ok(()) }),
            Action::Report(_)
            | Action::Sleep(_)
            | Action::Unmount(_)
            | Action::RemoveFile(_)
            | Action::Finish(_) => Reply::Done,
        }
    }

    fn install(&self, o: &InstallOptions) -> (Vec<String>, Result<(), String>) {
        let mut i = Installer::new(o);
        let mut done = Vec::new();
        let mut mounted = Vec::new();
        loop {
            let a = i.request();
            if let Action::Finish(r) = a {
                assert!(mounted.is_empty());
                return (done, r);
            }
            if let Action::Unmount(d) = &a {
                assert_eq!(mounted.pop().as_ref(), Some(d));
            }
            if let Action::CopyImage { .. } = a {
                let p = i.copy_report(Ratio { done: 1, whole: 3 });
                assert_eq!((p.step, p.total), (total_steps(o.superfloppy) - 2, total_steps(o.superfloppy)));
                assert_eq!(p.message, "Copying system image");
                assert_eq!(p.fraction, Some(Ratio { done: 1, whole: 3 }));
            }
            done.push(name(&a));
            let reply = self.reply(&a);
            if let (Action::Mount { .. }, Reply::Text(Ok(d))) = (&a, &reply) {
                mounted.push(d.clone());
            }
            i.answer(reply);
            assert!(done.len() < 300);
        }
    }

    fn error(&self, o: &InstallOptions) -> String {
        self.install(o).1.unwrap_err()
    }
}

#[test]
fn installation_on_a_disk_for_bios() {
    let (done, r) = World::plain().install(&options("/dev/sda", false));
    assert_eq!(r, Ok(()));
    assert_eq!(
        done,
        [
            "size /b/a.squashfs",
            "report 1/8 Checking system image",
            "head /b/a.squashfs",
            "mount /b/a.squashfs auto ro true",
            "exists /m/a.squashfs/boot/bootcode.bin",
            "attributes sda",
            "report 2/8 Creating partitions",
            "run parted --script /dev/sda mklabel msdos mkpart primary fat32 1MiB 4GiB mkpart primary btrfs 4GiB -1 set 1 boot on set 1 esp on",
            "run udevadm settle",
            "exists /dev/sda1",
            "exists /dev/sda2",
            "report 3/8 Formatting boot partition (FAT32)",
            "run mkfs.vfat -F 32 -s 32 -n BOOT /dev/sda1",
            "uuid /dev/sda1",
            "report 4/8 Formatting data partition (BTRFS)",
            "run mkfs.btrfs -q -L data-1A2B -f /dev/sda2",
            "mount /dev/sda1 vfat fmask=177,dmask=077 false",
            "report 5/8 Installing bootloader",
            "isdir /m/a.squashfs/usr/lib/genpack-install",
            "mkdir /m/sda1/efi/boot",
            "list /m/a.squashfs/usr/lib/genpack-install",
            "copy /m/a.squashfs/usr/lib/genpack-install/bootx64.efi /m/sda1/efi/boot/bootx64.efi",
            "copy /m/a.squashfs/usr/lib/genpack-install/bootia32.efi /m/sda1/efi/boot/bootia32.efi",
            "exists /m/a.squashfs/usr/lib/genpack-install/boot.img",
            "exists /m/a.squashfs/usr/lib/genpack-install/core.img",
            "exists /m/a.squashfs/usr/lib/genpack-install/grub.cfg",
            "grub?",
            "mkdir /m/sda1/boot/grub",
            "copy /m/a.squashfs/usr/lib/genpack-install/boot.img /m/sda1/boot/grub/boot.img",
            "copy /m/a.squashfs/usr/lib/genpack-install/core.img /m/sda1/boot/grub/core.img",
            "copy /m/a.squashfs/usr/lib/genpack-install/grub.cfg /m/sda1/boot/grub/grub.cfg",
            "run grub-bios-setup -d /m/sda1/boot/grub /dev/sda",
            "remove /m/sda1/boot/grub/boot.img",
            "remove /m/sda1/boot/grub/core.img",
            "report 6/8 Copying system image",
            "image /b/a.squashfs /m/sda1/system.img 1073741824",
            "report 7/8 Writing configuration",
            "write /m/sda1/system.ini \"hostname=host\\ntimezone=UTC\\n\"",
            "report 8/8 Syncing",
            "run sync ",
            "unmount /m/sda1",
            "unmount /m/a.squashfs",
        ]
    );
}

#[test]
fn large_image_goes_to_the_data_partition() {
    let w = World { size: 4 * GIB, sectors: "9999999999\n", ..World::plain() };
    let (done, r) = w.install(&options("/dev/nvme0n1", false));
    assert_eq!(r, Ok(()));
    assert!(done.contains(&"run parted --script /dev/nvme0n1 mklabel gpt mkpart primary fat32 1MiB 1GiB mkpart primary btrfs 1GiB -1 set 1 boot on".to_string()));
    assert!(!done.iter().any(|n| n.contains("grub")));
    let at = done.iter().position(|n| n.starts_with("image")).unwrap();
    assert_eq!(done[at - 1], "mount /dev/nvme0n1p2 btrfs  false");
    assert_eq!(done[at], "image /b/a.squashfs /m/nvme0n1p2/system 4294967296");
    assert_eq!(done[at + 1], "unmount /m/nvme0n1p2");
    assert_eq!(done[at + 2], "report 7/8 Writing configuration");
    assert_eq!(done[done.len() - 2..], ["unmount /m/nvme0n1p1", "unmount /m/a.squashfs"]);
}

#[test]
fn whole_disk_becomes_one_file_system() {
    let mut o = options("/dev/sda", true);
    o.hostname = String::new();
    o.timezone = String::new();
    let w = World { mounts: false, ..World::plain() };
    let (done, r) = w.install(&o);
    assert_eq!(r, Ok(()));
    assert_eq!(
        done,
        [
            "size /b/a.squashfs",
            "report 1/6 Checking system image",
            "head /b/a.squashfs",
            "mount /b/a.squashfs auto ro true",
            "report 2/6 Formatting disk (FAT32)",
            "run mkfs.vfat -F 32 -s 32 -I -n BOOT /dev/sda",
            "mount /dev/sda vfat fmask=177,dmask=077 false",
            "report 3/6 Installing bootloader",
            "isdir /usr/local/lib/genpack-install",
            "mkdir /m/sda/efi/boot",
            "list /usr/local/lib/genpack-install",
            "copy /usr/local/lib/genpack-install/bootx64.efi /m/sda/efi/boot/bootx64.efi",
            "copy /usr/local/lib/genpack-install/bootia32.efi /m/sda/efi/boot/bootia32.efi",
            "report 4/6 Copying system image",
            "image /b/a.squashfs /m/sda/system.img 1073741824",
            "report 5/6 Writing configuration",
            "report 6/6 Syncing",
            "run sync ",
            "unmount /m/sda",
        ]
    );
    let large = World { size: 4 * GIB, ..World::plain() };
    assert_eq!(
        large.install(&o),
        (
            vec!["size /b/a.squashfs".to_string()],
            Err("superfloppy mode requires a system image smaller than 4 GiB".to_string())
        )
    );
}

#[test]
fn single_board_computer_keeps_its_ways() {
    let w = World { sbc: true, failing: "isdir", ..World::plain() };
    let (done, r) = w.install(&options("/dev/mmcblk0", false));
    assert_eq!(r, Ok(()));
    assert!(!done.iter().any(|n| n.contains("esp on") || n.contains("grub-bios-setup")));
    let at = done.iter().position(|n| n == "report 5/8 Installing bootloader").unwrap();
    assert_eq!(
        done[at + 1..at + 8],
        [
            "list /m/a.squashfs/boot",
            "mkdir /m/mmcblk0p1",
            "copy /m/a.squashfs/boot/start4.elf /m/mmcblk0p1/start4.elf",
            "isdir /m/a.squashfs/usr/lib/genpack-install",
            "isdir /usr/local/lib/genpack-install",
            "isdir /usr/lib/genpack-install",
            "report 6/8 Copying system image",
        ]
    );
}

#[test]
fn installation_tells_what_failed() {
    let o = options("/dev/sda", false);
    for (failing, error) in [
        ("size", "stat /b/a.squashfs: broken"),
        ("head", "/b/a.squashfs is not a valid squashfs image"),
        ("run parted", "broken"),
        ("exists /dev/sda1", "partition device /dev/sda1 did not appear"),
        ("exists /dev/sda2", "partition device /dev/sda2 did not appear"),
        ("run mkfs.vfat", "broken"),
        ("uuid", "broken"),
        ("run mkfs.btrfs", "broken"),
        ("mount /dev/sda1", "broken"),
        (
            "isdir",
            "no bootloader files found (neither in image nor /usr/lib/genpack-install)",
        ),
        ("mkdir /m/sda1/efi", "create /m/sda1/efi/boot: broken"),
        ("list", "read /m/a.squashfs/usr/lib/genpack-install: broken"),
        ("copy /m/a.squashfs/usr/lib/genpack-install/bootia32", "copy bootia32.efi: broken"),
        ("mkdir /m/sda1/boot/grub", "create /m/sda1/boot/grub: broken"),
        ("copy /m/a.squashfs/usr/lib/genpack-install/core.img", "copy core.img: broken"),
        ("run grub-bios-setup", "broken"),
        ("image", "broken"),
        ("write", "write /m/sda1/system.ini: broken"),
    ] {
        let w = World { failing, ..World::plain() };
        assert_eq!(w.error(&o), error, "{}", failing);
    }
    let w = World { failing: "run mkfs.vfat", ..World::plain() };
    assert_eq!(w.error(&options("/dev/sda", true)), "broken");
    let w = World { size: 4 * GIB, failing: "mount /dev/sda2", ..World::plain() };
    assert_eq!(w.error(&o), "broken");
    let w = World { sbc: true, failing: "list /m/a.squashfs/boot", ..World::plain() };
    assert_eq!(w.error(&o), "read /m/a.squashfs/boot: broken");
}

#[test]
fn some_failures_do_not_matter() {
    let o = options("/dev/sda", false);
    for failing in ["mount /b", "run udevadm", "run sync", "grub?", "exists /m"] {
        let w = World { failing, ..World::plain() };
        assert_eq!(w.install(&o).1, Ok(()), "{}", failing);
    }
}

#[test]
fn all_that_is_mounted_is_unmounted_after_a_failure() {
    let w = World { size: 4 * GIB, failing: "image", ..World::plain() };
    let (done, r) = w.install(&options("/dev/sda", false));
    assert!(r.is_err());
    assert_eq!(
        done[done.len() - 3..],
        ["unmount /m/sda2", "unmount /m/sda1", "unmount /m/a.squashfs"]
    );
}

#[test]
fn partition_is_waited_for() {
    let w = World { failing: "exists /dev/sda1", ..World::plain() };
    let (done, _) = w.install(&options("/dev/sda", false));
    assert_eq!(done.iter().filter(|n| *n == "exists /dev/sda1").count(), 25);
    assert_eq!(done.iter().filter(|n| *n == "sleep 200").count(), 25);
}

#[test]
fn stray_reply_ends_an_installation() {
    let mut i = Installer::new(&options("/dev/sda", false));
    i.answer(Reply::Answer(true));
    assert!(matches!(i.request(), Action::Finish(Err(e)) if e == "unexpected reply"));
}

#[test]
fn board_is_told_once_it_is_found() {
    for sbc in [true, false] {
        let w = World { sbc, ..World::plain() };
        let mut i = Installer::new(&options("/dev/sda", false));
        loop {
            let a = i.request();
            if let Action::DiskAttributes(_) = a {
                assert_eq!(i.board(), if sbc { Some("Raspberry Pi") } else { None });
                break;
            }
            assert_eq!(i.board(), None);
            i.answer(w.reply(&a));
        }
    }
}

#[test]
fn efi_boot_loaders_are_told_by_their_names() {
    let entry = |name: &str, regular: bool| Entry {
        name: name.to_string(),
        kind: EntryKind::Other,
        regular,
    };
    let v = vec![
        entry("bootx64.efi", true),
        entry("boot.efi", true),
        entry("grubx64.efi", true),
        entry("bootx64.efi.sig", true),
        entry("bootaa64.efi", false),
        entry("boot", true),
    ];
    assert_eq!(select_efi_names(&v), ["bootx64.efi", "boot.efi"]);
}

#[test]
fn boot_loaders_are_required_or_not() {
    let empty = |required: bool| {
        let mut b = BootloaderSetup::new(None, "/m".to_string(), None, required);
        loop {
            if let Some(r) = b.outcome() {
                return r;
            }
            let reply = match b.request() {
                Action::IsDirectory(_) => Reply::Answer(true),
                Action::ListDir(_) => Reply::Entries(Ok(vec![])),
                _ => Reply::Outcome(Ok(())),
            };
            b.answer(reply);
        }
    };
    assert_eq!(
        empty(true),
        Err("no boot*.efi found under /usr/local/lib/genpack-install".to_string())
    );
    assert_eq!(empty(false), Ok(()));
}
