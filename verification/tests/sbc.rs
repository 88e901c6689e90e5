use genpack_install::effects::{Action, Entry, EntryKind, Reply};
use genpack_install::sbc::{cmdline_file_text, fix_raspi_cmdline, sbc_profile, BootFileCopy};
use genpack_install::walk::FileWalk;

#[test]
fn fix_raspi_cmdline_replaces_root_and_strips_rootfstype() {
    assert_eq!(
        fix_raspi_cmdline("console=serial0,115200 root=/dev/mmcblk0p2 rootfstype=ext4 rootwait"),
        "console=serial0,115200 root=systemimg:auto rootwait"
    );
    assert_eq!(
        fix_raspi_cmdline("console=tty1 rootwait quiet"),
        "console=tty1 rootwait quiet"
    );
    assert_eq!(fix_raspi_cmdline("root=PARTUUID=abcd-02"), "root=systemimg:auto");
}

/// Says what comes of an action.
type World = fn(&str) -> Reply;

/// A short name for an action.
fn name(a: &Action) -> String {
    match a {
        Action::ListDir(d) => format!("list {}", d),
        Action::Exists(p) => format!("exists {}", p),
        Action::ReadText(p) => format!("read {}", p),
        Action::WriteText { path, text } => format!("write {} {:?}", path, text),
        Action::CreateDir(d) => format!("create {}", d),
        Action::CopyFile { from, to } => format!("copy {} {}", from, to),
        other => format!("{:?}", other),
    }
}

fn bring(world: World) -> (Vec<String>, Result<(), String>) {
    let mut c = BootFileCopy::new("/img", "/mnt".to_string());
    let mut done = Vec::new();
    loop {
        if let Some(r) = c.outcome() {
            return (done, r);
        }
        let n = name(&c.request());
        let reply = world(&n);
        done.push(n);
        c.answer(reply);
    }
}

fn entry(name: &str, kind: EntryKind) -> Entry {
    Entry { name: name.to_string(), kind, regular: kind == EntryKind::File }
}

fn entries(n: &str) -> Reply {
    Reply::Entries(Ok(match n {
        "list /img/boot" => vec![
            entry("cmdline.txt", EntryKind::File),
            entry("overlays", EntryKind::Directory),
            entry("link", EntryKind::Other),
            entry("config.txt", EntryKind::File),
            entry("empty", EntryKind::Directory),
            entry("bootcode.bin", EntryKind::File),
        ],
        "list /img/boot/overlays" => vec![
            entry("b.dtbo", EntryKind::File),
            entry("cmdline.txt", EntryKind::File),
        ],
        _ => vec![],
    }))
}

fn fresh(n: &str) -> Reply {
    match n {
        _ if n.starts_with("list") => entries(n),
        _ if n.starts_with("exists") => Reply::Answer(false),
        _ if n.starts_with("read") => Reply::Text(Ok("quiet root=/dev/x\r\nmore\n".to_string())),
        _ => Reply::Outcome(Ok(())),
    }
}

fn again(n: &str) -> Reply {
    if n.starts_with("exists") {
        Reply::Answer(true)
    } else {
        fresh(n)
    }
}

#[test]
fn boot_files_are_brought_over() {
    let (done, r) = bring(fresh);
    assert_eq!(r, Ok(()));
    assert_eq!(
        done,
        [
            "list /img/boot",
            "list /img/boot/overlays",
            "list /img/boot/empty",
            "exists /mnt/cmdline.txt",
            "read /img/boot/cmdline.txt",
            "write /mnt/cmdline.txt \"quiet root=systemimg:auto\\n\"",
            "create /mnt/overlays",
            "copy /img/boot/overlays/b.dtbo /mnt/overlays/b.dtbo",
            "create /mnt/overlays",
            "copy /img/boot/overlays/cmdline.txt /mnt/overlays/cmdline.txt",
            "exists /mnt/config.txt",
            "create /mnt",
            "copy /img/boot/config.txt /mnt/config.txt",
            "create /mnt",
            "copy /img/boot/bootcode.bin /mnt/bootcode.bin",
        ]
    );
}

#[test]
fn settings_that_are_there_are_kept() {
    let (done, r) = bring(again);
    assert_eq!(r, Ok(()));
    assert!(done.contains(&"exists /mnt/cmdline.txt".to_string()));
    assert!(done.contains(&"exists /mnt/config.txt".to_string()));
    assert!(!done.iter().any(|n| n.starts_with("write") || n.starts_with("read")));
    assert!(!done.iter().any(|n| n.starts_with("copy /img/boot/config.txt")));
    assert!(done.iter().any(|n| n.starts_with("copy /img/boot/bootcode.bin")));
}

fn broken(n: &str, at: &str) -> Reply {
    if !n.starts_with(at) {
        return fresh(n);
    }
    let e = "gone".to_string();
    match fresh(n) {
        Reply::Entries(_) => Reply::Entries(Err(e)),
        Reply::Text(_) => Reply::Text(Err(e)),
        Reply::Outcome(_) => Reply::Outcome(Err(e)),
        other => other,
    }
}

#[test]
fn boot_files_tell_what_failed() {
    let error = |world: World| bring(world).1.unwrap_err();
    assert_eq!(error(|n| broken(n, "list /img/boot/overlays")), "read /img/boot/overlays: gone");
    assert_eq!(error(|n| broken(n, "read")), "read cmdline.txt: gone");
    assert_eq!(error(|n| broken(n, "write")), "write cmdline.txt: gone");
    assert_eq!(error(|n| broken(n, "create")), "create /mnt/overlays: gone");
    assert_eq!(error(|n| broken(n, "copy")), "copy overlays/b.dtbo: gone");
    assert_eq!(error(|_| Reply::Done), "unexpected reply");
}

#[test]
fn command_line_file_has_one_line() {
    assert_eq!(cmdline_file_text(""), "\n");
    assert_eq!(cmdline_file_text("  a  root=x \n b"), "a root=systemimg:auto\n");
    assert_eq!(cmdline_file_text("\nroot=x"), "\n");
}

#[test]
fn raspberry_pi_has_its_own_boot_files() {
    let p = sbc_profile(0);
    assert_eq!((p.name, p.marker), ("Raspberry Pi", "boot/bootcode.bin"));
    assert!(!p.mark_esp);
    assert!(p.boot_files);
}

#[test]
fn walk_finds_all_files_in_their_order() {
    let mut w = FileWalk::new("/img/boot");
    let mut listed = 0;
    loop {
        let n = match w.directory() {
            Some(d) => format!("list {}", d),
            None => break,
        };
        match entries(&n) {
            Reply::Entries(Ok(v)) => w.enter(&v),
            _ => unreachable!(),
        }
        listed += 1;
    }
    assert_eq!(listed, 3);
    let files: Vec<&str> = (0..w.count()).map(|i| w.file(i)).collect();
    assert_eq!(
        files,
        [
            "/img/boot/cmdline.txt",
            "/img/boot/overlays/b.dtbo",
            "/img/boot/overlays/cmdline.txt",
            "/img/boot/config.txt",
            "/img/boot/bootcode.bin",
        ]
    );
}
