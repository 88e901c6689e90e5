use genpack_install::command::{
    blkid_uuid, command_result, mount_arguments, start_failure, systemctl_outcome, temp_dir_path,
    usable, Ran,
};
use genpack_install::mounting::{MountAction, MountReply, MountSetup};

fn ended(success: bool, status: &str, stdout: &str, stderr: &str) -> Ran {
    Ran::Ended {
        success,
        status: status.to_string(),
        stdout: stdout.to_string(),
        stderr: stderr.to_string(),
    }
}

fn missing() -> Ran {
    Ran::NotStarted("No such file or directory (os error 2)".to_string())
}

#[test]
fn command_tells_why_it_failed() {
    assert_eq!(command_result("parted", &ended(true, "exit status: 0", "", "note")), Ok(()));
    assert_eq!(
        command_result("parted", &ended(false, "exit status: 1", "", "  Error: no disk\n")),
        Err("parted: Error: no disk".to_string())
    );
    assert_eq!(
        command_result("parted", &ended(false, "signal: 9 (SIGKILL)", "out", " \n")),
        Err("parted exited with signal: 9 (SIGKILL)".to_string())
    );
    assert_eq!(
        command_result("parted", &missing()),
        Err("failed to run parted: No such file or directory (os error 2)".to_string())
    );
    assert_eq!(start_failure("lsblk", "denied"), "failed to run lsblk: denied");
}

#[test]
fn systemctl_tells_how_it_ended() {
    assert_eq!(systemctl_outcome("reboot", &ended(true, "exit status: 0", "", "")), Ok(()));
    assert_eq!(
        systemctl_outcome("reboot", &ended(false, "exit status: 4", "", "denied")),
        Err("systemctl reboot exited with exit status: 4".to_string())
    );
    assert_eq!(
        systemctl_outcome("poweroff", &missing()),
        Err(
            "failed to run systemctl poweroff: No such file or directory (os error 2)".to_string()
        )
    );
}

#[test]
fn uuid_is_what_blkid_writes() {
    assert_eq!(
        blkid_uuid("/dev/sda1", &ended(true, "", "1A2B-3C4D\n", "")),
        Ok("1A2B-3C4D".to_string())
    );
    assert_eq!(
        blkid_uuid("/dev/sda1", &ended(true, "", " \n", "")),
        Err("no UUID for /dev/sda1".to_string())
    );
    assert_eq!(
        blkid_uuid("/dev/sda1", &ended(false, "exit status: 2", "1A2B-3C4D", "")),
        Err("blkid failed for /dev/sda1".to_string())
    );
    assert_eq!(
        blkid_uuid("/dev/sda1", &missing()),
        Err("failed to run blkid: No such file or directory (os error 2)".to_string())
    );
}

#[test]
fn program_is_usable_if_it_answers() {
    assert!(usable(&ended(true, "exit status: 0", "grub 2.12", "")));
    assert!(!usable(&ended(false, "exit status: 1", "", "")));
    assert!(!usable(&missing()));
}

#[test]
fn mount_gets_only_the_options_there_are() {
    assert_eq!(
        mount_arguments("/dev/sda1", Some("vfat"), &vec!["fmask=177", "dmask=077"], false, "/tmp/m"),
        ["-t", "vfat", "-o", "fmask=177,dmask=077", "/dev/sda1", "/tmp/m"]
    );
    assert_eq!(
        mount_arguments("/dev/sda2", Some("btrfs"), &vec![], false, "/tmp/m"),
        ["-t", "btrfs", "/dev/sda2", "/tmp/m"]
    );
    assert_eq!(
        mount_arguments("/b/a.squashfs", None, &vec!["ro"], true, "/tmp/m"),
        ["-o", "ro,loop", "/b/a.squashfs", "/tmp/m"]
    );
    assert_eq!(
        mount_arguments("/b/a.squashfs", None, &vec![], true, "/tmp/m"),
        ["-o", "loop", "/b/a.squashfs", "/tmp/m"]
    );
}

#[test]
fn mount_directories_are_apart() {
    assert_eq!(temp_dir_path(12, 345), "/tmp/genpack-install-12-345");
    assert_ne!(temp_dir_path(1, 23), temp_dir_path(12, 3));
    assert_ne!(temp_dir_path(1, 2), temp_dir_path(1, 3));
}

const DIR: &str = "/tmp/genpack-install-12-345";

fn made() -> MountReply {
    MountReply::Made(Ok(()))
}

#[test]
fn mount_that_succeeds_keeps_its_directory() {
    let mut m = MountSetup::image(12, 345, "/b/a.squashfs".to_string());
    assert!(matches!(m.request(), MountAction::MakeDir(dir) if dir == DIR));
    m.answer(made());
    match m.request() {
        MountAction::Mount(args) => assert_eq!(args, ["-o", "ro,loop", "/b/a.squashfs", DIR]),
        other => panic!("{:?}", other),
    }
    m.answer(MountReply::Ran(ended(true, "", "", "")));
    assert!(matches!(m.request(), MountAction::Finish(Ok(dir)) if dir == DIR));
}

#[test]
fn mount_that_fails_removes_its_directory() {
    let mut m = MountSetup::new(12, 345, "/dev/sda1".to_string(), Some("vfat"), vec![], false);
    m.answer(made());
    m.answer(MountReply::Ran(ended(false, "exit status: 32", "", "wrong fs type\n")));
    assert!(matches!(m.request(), MountAction::RemoveDir(dir) if dir == DIR));
    m.answer(MountReply::Removed);
    assert!(matches!(m.request(), MountAction::Finish(Err(e)) if e == "mount: wrong fs type"));
}

#[test]
fn mount_without_a_directory_fails() {
    let mut m = MountSetup::new(12, 345, "/dev/sda1".to_string(), None, vec![], false);
    m.answer(MountReply::Made(Err("full".to_string())));
    match m.request() {
        MountAction::Finish(r) => {
            assert_eq!(r, Err(format!("create temp dir {}: full", DIR)));
        }
        other => panic!("{:?}", other),
    }
}

#[test]
fn stray_mount_replies_are_errors() {
    let mut m = MountSetup::image(12, 345, "i".to_string());
    m.answer(MountReply::Removed);
    assert!(matches!(m.request(), MountAction::Finish(Err(e)) if e == "unexpected reply"));
    let mut m = MountSetup::image(12, 345, "i".to_string());
    m.answer(made());
    m.answer(made());
    assert!(matches!(m.request(), MountAction::RemoveDir(_)));
}
