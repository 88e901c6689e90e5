use genpack_install::backend::{ImageMetadata, InstallOptions, Ratio, SystemInfo};
use genpack_install::command::Ran;
use genpack_install::effects::Action;
use genpack_install::images::GenpackMeta;
use genpack_install::machine::{cpu_cores, cpu_model, memory_kib, RealBackend};
use genpack_install::mock::MockBackend;
use genpack_install::session::format_sysinfo;

const CPUINFO: &str = "processor\t: 0\nvendor_id\t: GenuineIntel\nmodel name\t: Intel(R) N100: x\n\nprocessor\t: 1\nmodel name\t: other\n";
const MEMINFO: &str = "MemFree: 1 kB\nMemTotal:       16303204 kB\nMemTotal: 5 kB\n";

fn ended(success: bool, stdout: &str) -> Ran {
    Ran::Ended {
        success,
        status: "exit status: 1".to_string(),
        stdout: stdout.to_string(),
        stderr: "error".to_string(),
    }
}

fn options(superfloppy: bool) -> InstallOptions {
    InstallOptions {
        disk: "/dev/sda".to_string(),
        image: "/b/genpack.squashfs".to_string(),
        superfloppy,
        timezone: String::new(),
        locale: String::new(),
        hostname: String::new(),
        ssh_pubkey: String::new(),
    }
}

fn none() -> GenpackMeta {
    GenpackMeta { arch: None, artifact: None, banner: None, version: None }
}

#[test]
fn disks_come_from_lsblk() {
    let b = RealBackend::new();
    let out = "PATH=\"/dev/sdb\" NAME=\"sdb\" TYPE=\"disk\" PKNAME=\"\" RO=\"0\" RM=\"1\" MOUNTPOINT=\"\" SIZE=\"4294967296\" MODEL=\" Stick \"\n";
    let disks = b.list_disks(&ended(true, out)).unwrap();
    assert_eq!(disks.len(), 1);
    assert_eq!(disks[0].path, "/dev/sdb");
    assert_eq!(disks[0].model, "Stick");
    assert_eq!(disks[0].size, 4294967296);
    assert!(disks[0].removable);
    assert_eq!(b.list_disks(&ended(false, out)).unwrap_err(), "lsblk failed");
    assert_eq!(
        b.list_disks(&Ran::NotStarted("denied".to_string())).unwrap_err(),
        "failed to run lsblk: denied"
    );
}

#[test]
fn images_that_cannot_be_read_are_not_listed() {
    let b = RealBackend::default();
    let z = b.read_image_metadata("/b/z.squashfs", Ok(1), none(), "x86_64");
    let a = b.read_image_metadata("/b/a.squashfs", Ok(2), none(), "x86_64");
    let gone = b.read_image_metadata("/b/b.squashfs", Err("gone".to_string()), none(), "x86_64");
    assert_eq!(gone.as_ref().unwrap_err(), "stat failed: gone");
    let images = b.scan_images(vec![z, gone, a]).unwrap();
    let names: Vec<&str> = images.iter().map(|m| m.filename.as_str()).collect();
    assert_eq!(names, ["a.squashfs", "z.squashfs"]);
    assert!(b.scan_images(vec![]).unwrap().is_empty());
}

#[test]
fn system_tells_of_itself() {
    assert_eq!(cpu_model(CPUINFO), "Intel(R) N100");
    assert_eq!(cpu_model("model name without a colon\nmodel name: x\n"), "(unknown)");
    assert_eq!(cpu_model(""), "(unknown)");
    assert_eq!(cpu_cores(CPUINFO), 2);
    assert_eq!(cpu_cores(""), 1);
    assert_eq!(memory_kib(MEMINFO), Some(16303204));
    assert_eq!(memory_kib("MemTotal:\n"), None);
    assert_eq!(memory_kib("MemTotal: many kB\n"), None);
    assert_eq!(memory_kib(""), None);
    let info = RealBackend::new()
        .system_info(Ok(CPUINFO), Ok(MEMINFO), Some("6.12.1-gentoo\n"), "x86_64")
        .unwrap();
    assert_eq!(info.mem_total, 16303204 * 1024);
    assert_eq!(
        format_sysinfo(&info),
        "CPU:     Intel(R) N100\nCores:   2\nMemory:  15.5 GiB\nArch:    x86_64\nKernel:  6.12.1-gentoo"
    );
    let info = RealBackend::new().system_info(Ok(""), Ok(""), None, "riscv64").unwrap();
    assert_eq!(
        format_sysinfo(&info),
        "CPU:     (unknown)\nCores:   1\nMemory:  0 B\nArch:    riscv64\nKernel:  (unknown)"
    );
}

#[test]
fn system_that_cannot_be_read_is_an_error() {
    let b = RealBackend::new();
    assert_eq!(
        b.system_info(Err("denied"), Err("gone"), None, "x86_64").unwrap_err(),
        "read /proc/cpuinfo: denied"
    );
    assert_eq!(
        b.system_info(Ok(CPUINFO), Err("gone"), None, "x86_64").unwrap_err(),
        "read /proc/meminfo: gone"
    );
}

#[test]
fn machine_is_switched_off_by_systemctl() {
    let b = RealBackend::new();
    assert_eq!(b.reboot(&ended(true, "")), Ok(()));
    assert_eq!(
        b.reboot(&ended(false, "")),
        Err("systemctl reboot exited with exit status: 1".to_string())
    );
    assert_eq!(
        b.poweroff(&Ran::NotStarted("denied".to_string())),
        Err("failed to run systemctl poweroff: denied".to_string())
    );
    assert!(matches!(
        b.install(&options(false)).request(),
        Action::FileSize(path) if path == "/b/genpack.squashfs"
    ));
}

#[test]
fn mock_makes_up_disks_and_images() {
    let b = MockBackend::default();
    let disks = b.list_disks().unwrap();
    let shown: Vec<(String, String, bool)> =
        disks.iter().map(|d| (d.path.clone(), d.size_human(), d.removable)).collect();
    assert_eq!(
        shown,
        [
            ("/dev/sda".to_string(), "32.0 GiB".to_string(), true),
            ("/dev/nvme0n1".to_string(), "1.8 TiB".to_string(), false),
            ("/dev/nvme1n1".to_string(), "1.8 TiB".to_string(), false),
        ]
    );
    assert_eq!(disks[1].model, "KIOXIA-EXCERIA PRO SSD");
    let images: Vec<ImageMetadata> = b.scan_images("x86_64").unwrap();
    assert_eq!(images.len(), 3);
    assert_eq!(images[0].size, 1_200 * 1024 * 1024);
    assert_eq!(images[1].size, 5 * 1024 * 1024 * 1024);
    assert_eq!(images[2].size, 800 * 1024 * 1024);
    assert!(images[0].superfloppy_available());
    assert!(!images[1].superfloppy_available());
    assert_eq!(images[0].banner.lines().count(), 5);
    assert_eq!(images[0].banner.lines().nth(1), Some(" / _` |/ _ \\ '_ \\| '_ \\ / _` |/ __| |/ /"));
    assert_eq!((images[2].arch.as_str(), images[2].arch_match), ("aarch64", false));
    assert_eq!(b.scan_images("aarch64").unwrap()[2].arch, "x86_64");
    let found = b.read_image_metadata("/run/initramfs/boot/walbrix.squashfs", "x86_64").unwrap();
    assert_eq!(found.version, "commit deadbee 2026-06-25 09:00:00");
    let found = b.read_image_metadata("/run//initramfs/./boot/genpack.squashfs/", "x86_64").unwrap();
    assert_eq!(found.path, "/run/initramfs/boot/genpack.squashfs");
    assert_eq!(
        b.read_image_metadata("/nowhere", "x86_64").unwrap_err(),
        "no such image: /nowhere"
    );
    assert_eq!(b.reboot(), Ok(()));
    assert_eq!(b.poweroff(), Ok(()));
}

#[test]
fn mock_tells_of_the_system_where_it_can() {
    let b = MockBackend::new();
    let real = SystemInfo {
        cpu_model: "a".to_string(),
        cpu_cores: 3,
        mem_total: 4,
        arch: "b".to_string(),
        kernel: "c".to_string(),
    };
    assert_eq!(b.system_info(Ok(real), "x").unwrap().cpu_cores, 3);
    let made_up = b.system_info(Err("denied".to_string()), "riscv64").unwrap();
    assert_eq!(made_up.cpu_model, "Mock CPU @ 3.00GHz");
    assert_eq!(made_up.cpu_cores, 8);
    assert_eq!(made_up.mem_total, 16 * 1024 * 1024 * 1024);
    assert_eq!(made_up.arch, "riscv64");
    assert_eq!(made_up.kernel, "mock");
}

#[test]
fn mock_installation_shows_the_true_steps() {
    let b = MockBackend::new();
    for (superfloppy, total, millis) in [(true, 6, 3875), (false, 8, 4875)] {
        let beats = b.install(&options(superfloppy));
        assert_eq!(beats.len(), total + 20);
        assert_eq!(beats.iter().map(|b| b.pause).sum::<u64>(), millis);
        let mut messages: Vec<&str> = Vec::new();
        for beat in &beats {
            assert_eq!(beat.report.total, total);
            if messages.last() != Some(&beat.report.message) {
                messages.push(beat.report.message);
            }
            assert_eq!(beat.report.step, messages.len());
            assert!(beat.report.fraction.map_or(true, |f| f.done <= f.whole));
            assert_eq!(
                beat.report.fraction.is_some(),
                beat.report.message == "Copying system image"
            );
        }
        assert_eq!(messages.len(), total);
        let shares: Vec<Ratio> = beats.iter().filter_map(|b| b.report.fraction).collect();
        for (t, share) in shares.iter().enumerate() {
            assert_eq!(*share, Ratio { done: t as u64, whole: 20 });
        }
        assert_eq!(beats[beats.len() - 3].pause, 75);
    }
}
