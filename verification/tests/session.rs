use genpack_install::backend::{DiskInfo, ImageMetadata, Progress, Ratio};
use genpack_install::session::{
    poweroff_error, reboot_error, step_indicator, sysinfo_text, Form, InstallPage, Page, Session,
};

fn disk(path: &str, size: u64) -> DiskInfo {
    DiskInfo { path: path.to_string(), model: "M".to_string(), size, removable: true }
}

fn image(path: &str, size: u64, arch_match: bool) -> ImageMetadata {
    ImageMetadata {
        path: path.to_string(),
        filename: "f".to_string(),
        size,
        arch: "a".to_string(),
        artifact: "b".to_string(),
        banner: "c".to_string(),
        version: "d".to_string(),
        arch_match,
    }
}

fn form(keys: bool) -> Form {
    Form {
        superfloppy: true,
        timezone: "Asia/Tokyo".to_string(),
        locale: "ja_JP.UTF-8".to_string(),
        hostname: "host".to_string(),
        install_ssh_key: keys,
        ssh_pubkey: "ssh-ed25519 AAAA".to_string(),
    }
}

fn loaded() -> Session {
    let mut s = Session::new();
    s.load_disks(Ok(vec![disk("/dev/sda", 0x4_0000_0000), disk("/dev/sdb", 1)]));
    s.load_images(Ok(vec![
        image("/b/x", 0xffff_ffff, true),
        image("/b/y", 0x1_0000_0000, false),
    ]));
    s
}

#[test]
fn chosen_rows_are_installed() {
    let mut s = loaded();
    s.pick(1, 1);
    let o = s.options(&form(true)).unwrap();
    assert_eq!(o.disk, s.disk_rows()[1].path);
    assert_eq!(o.disk, "/dev/sdb");
    assert_eq!(o.image, s.image_rows()[1].path);
    assert_eq!(o.image, "/b/y");
    assert!(o.superfloppy);
    assert_eq!(o.timezone, "Asia/Tokyo");
    assert_eq!(o.locale, "ja_JP.UTF-8");
    assert_eq!(o.hostname, "host");
    assert_eq!(o.ssh_pubkey, "ssh-ed25519 AAAA");
    assert_eq!(s.options(&form(false)).unwrap().ssh_pubkey, "");
}

#[test]
fn nothing_is_installed_without_a_choice() {
    let mut s = loaded();
    for (d, i) in [(-1, 0), (0, -1), (2, 0), (0, 2), (i32::MIN, i32::MIN), (i32::MAX, 0)] {
        s.pick(d, i);
        assert_eq!(s.options(&form(true)).unwrap_err(), "no disk/image selected");
    }
}

#[test]
fn new_list_undoes_the_choice() {
    let mut s = loaded();
    s.pick(0, 1);
    assert!(s.options(&form(true)).is_ok());
    s.load_disks(Ok(vec![disk("/dev/sdc", 1)]));
    assert_eq!((s.chosen_disk(), s.chosen_image()), (-1, 1));
    assert!(s.options(&form(true)).is_err());
    s.pick(0, 1);
    s.load_images(Err("scan failed".to_string()));
    assert_eq!((s.chosen_disk(), s.chosen_image()), (0, -1));
    assert!(s.image_rows().is_empty());
    s.load_disks(Err("lsblk failed".to_string()));
    assert!(s.disk_rows().is_empty());
}

#[test]
fn rows_show_sizes_in_words() {
    let s = loaded();
    let disks = s.disk_rows();
    assert_eq!((disks[0].size.as_str(), disks[0].model.as_str()), ("16.0 GiB", "M"));
    assert_eq!((disks[1].size.as_str(), disks[1].removable), ("1 B", true));
    let images = s.image_rows();
    assert_eq!(images[0].size, "4.0 GiB");
    assert!(images[0].superfloppy_available);
    assert!(!images[1].superfloppy_available);
    assert!(images[0].arch_match && !images[1].arch_match);
    assert_eq!(
        [&images[0].filename, &images[0].arch, &images[0].artifact, &images[0].banner],
        ["f", "a", "b", "c"]
    );
    assert_eq!(images[0].version, "d");
}

#[test]
fn one_mark_for_each_step() {
    assert_eq!(step_indicator(0, 3), "□□□");
    assert_eq!(step_indicator(2, 6), "■■□□□□");
    assert_eq!(step_indicator(8, 8), "■■■■■■■■");
    assert_eq!(step_indicator(3, 2), "■■■");
    assert_eq!(step_indicator(0, 0), "");
}

#[test]
fn page_follows_the_installation() {
    let mut p = InstallPage::new();
    assert_eq!(p.page(), Page::Options);
    p.begin();
    assert_eq!((p.page(), p.error(), p.step(), p.total()), (Page::Installing, "", 0, 0));
    p.report(&Progress { step: 4, total: 6, message: "Copying", fraction: None });
    assert_eq!((p.step(), p.total(), p.message()), (4, 6, "Copying"));
    assert_eq!((p.indicator(), p.has_progress()), ("■■■■□□", false));
    let half = Ratio { done: 1, whole: 2 };
    p.report(&Progress { step: 4, total: 6, message: "Copying", fraction: Some(half) });
    assert_eq!((p.has_progress(), p.progress()), (true, half));
    p.report(&Progress { step: 5, total: 6, message: "Writing", fraction: None });
    assert_eq!((p.has_progress(), p.progress()), (false, half));
    p.end(Ok(()));
    assert_eq!((p.page(), p.error()), (Page::Done, ""));
    assert_eq!(p.progress(), Ratio { done: 1, whole: 1 });
    p.begin();
    assert_eq!((p.message(), p.has_progress(), p.indicator()), ("", false, "■■■■■□"));
    p.end(Err("parted: failed".to_string()));
    assert_eq!((p.page(), p.error()), (Page::Done, "parted: failed"));
    assert_eq!(p.progress(), Ratio { done: 0, whole: 1 });
    p.begin();
    p.end(Ok(()));
    assert_eq!(p.error(), "");
    let mut p = InstallPage::new();
    p.refuse("no disk/image selected");
    assert_eq!((p.page(), p.error()), (Page::Done, "no disk/image selected"));
}

#[test]
fn errors_are_put_into_words() {
    let e: Result<(), String> = Err("denied".to_string());
    assert_eq!(reboot_error(&e), Some("reboot failed: denied".to_string()));
    assert_eq!(poweroff_error(&e), Some("poweroff failed: denied".to_string()));
    assert_eq!(reboot_error(&Ok(())), None);
    assert_eq!(poweroff_error(&Ok(())), None);
    assert_eq!(
        sysinfo_text(&Err("gone".to_string())),
        "failed to read system info: gone"
    );
}
