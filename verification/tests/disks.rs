use genpack_install::disks::{installable_disks, pair_value};

#[test]
fn pair_value_extracts_fields() {
    let line = r#"PATH="/dev/sda" SIZE="15376000000" MODEL="Ultra Fit""#;
    assert_eq!(pair_value(line, "PATH"), Some("/dev/sda"));
    assert_eq!(pair_value(line, "SIZE"), Some("15376000000"));
    assert_eq!(pair_value(line, "MODEL"), Some("Ultra Fit"));
    assert_eq!(pair_value(line, "TYPE"), None);
}

/// A stick computer started from USB, with an eMMC inside. The medium it was started from
/// goes with its mounted boot partition, `loop0` is mounted and read-only, the boot areas
/// of the eMMC are read-only and small.
#[test]
fn installable_disks_excludes_boot_media_and_self() {
    let out = r#"PATH="/dev/loop0" NAME="loop0" TYPE="loop" PKNAME="" RO="1" RM="0" MOUNTPOINT="/run/initramfs/ro" SIZE="1876492288" MODEL=""
PATH="/dev/sda" NAME="sda" TYPE="disk" PKNAME="" RO="0" RM="1" MOUNTPOINT="" SIZE="15376000000" MODEL="Ultra"
PATH="/dev/sda1" NAME="sda1" TYPE="part" PKNAME="sda" RO="0" RM="1" MOUNTPOINT="/run/initramfs/boot" SIZE="15374000000" MODEL=""
PATH="/dev/mmcblk1" NAME="mmcblk1" TYPE="disk" PKNAME="" RO="0" RM="0" MOUNTPOINT="" SIZE="31268536320" MODEL=""
PATH="/dev/mmcblk1boot0" NAME="mmcblk1boot0" TYPE="disk" PKNAME="" RO="1" RM="0" MOUNTPOINT="" SIZE="4194304" MODEL=""
PATH="/dev/mmcblk1boot1" NAME="mmcblk1boot1" TYPE="disk" PKNAME="" RO="1" RM="0" MOUNTPOINT="" SIZE="4194304" MODEL=""
"#;
    let disks = installable_disks(out);
    assert_eq!(disks.len(), 1);
    assert_eq!(disks[0].path, "/dev/mmcblk1");
    assert_eq!(disks[0].model, "(unknown)");
    assert!(!disks[0].removable);
}

/// A loop device that is free and large enough is offered.
#[test]
fn installable_disks_keeps_unmounted_loop() {
    let out = r#"PATH="/dev/loop1" NAME="loop1" TYPE="loop" PKNAME="" RO="0" RM="0" MOUNTPOINT="" SIZE="8589934592" MODEL=""
"#;
    let disks = installable_disks(out);
    assert_eq!(disks.len(), 1);
    assert_eq!(disks[0].path, "/dev/loop1");
}

/// A partition under a RAID that is mounted: its disk is in use.
#[test]
fn installable_disks_excludes_raid_member_disks_recursively() {
    let out = r#"PATH="/dev/nvme0n1" NAME="nvme0n1" TYPE="disk" PKNAME="" RO="0" RM="0" MOUNTPOINT="" SIZE="2000398934016" MODEL="KIOXIA-EXCERIA PRO SSD"
PATH="/dev/nvme0n1p3" NAME="nvme0n1p3" TYPE="part" PKNAME="nvme0n1" RO="0" RM="0" MOUNTPOINT="" SIZE="1957449170944" MODEL=""
PATH="/dev/md127" NAME="md127" TYPE="raid0" PKNAME="nvme0n1p3" RO="0" RM="0" MOUNTPOINT="/" SIZE="3914627809280" MODEL=""
PATH="/dev/nvme1n1" NAME="nvme1n1" TYPE="disk" PKNAME="" RO="0" RM="0" MOUNTPOINT="" SIZE="2000398934016" MODEL="KIOXIA-EXCERIA PRO SSD"
"#;
    let disks = installable_disks(out);
    assert_eq!(disks.len(), 1);
    assert_eq!(disks[0].path, "/dev/nvme1n1");
}

/// A disk with a mounted partition is in use.
#[test]
fn installable_disks_excludes_disk_with_mounted_partition() {
    let out = r#"PATH="/dev/nvme0n1" NAME="nvme0n1" TYPE="disk" PKNAME="" RO="0" RM="0" MOUNTPOINT="" SIZE="2000398934016" MODEL="KIOXIA-EXCERIA PRO SSD"
PATH="/dev/nvme0n1p1" NAME="nvme0n1p1" TYPE="part" PKNAME="nvme0n1" RO="0" RM="0" MOUNTPOINT="/" SIZE="2000000000000" MODEL=""
PATH="/dev/nvme1n1" NAME="nvme1n1" TYPE="disk" PKNAME="" RO="0" RM="0" MOUNTPOINT="" SIZE="2000398934016" MODEL="KIOXIA-EXCERIA PRO SSD"
"#;
    let disks = installable_disks(out);
    assert_eq!(disks.len(), 1);
    assert_eq!(disks[0].path, "/dev/nvme1n1");
    assert_eq!(disks[0].model, "KIOXIA-EXCERIA PRO SSD");
}

fn device(name: &str, ty: &str, parent: &str, ro: &str, mount: &str, size: &str) -> String {
    format!(
        "PATH=\"/dev/{}\" NAME=\"{}\" TYPE=\"{}\" PKNAME=\"{}\" RO=\"{}\" RM=\"0\" MOUNTPOINT=\"{}\" SIZE=\"{}\" MODEL=\"  X \"\n",
        name, name, ty, parent, ro, mount, size
    )
}

fn offered(lines: &[String]) -> Vec<String> {
    installable_disks(&lines.concat()).into_iter().map(|d| d.path).collect()
}

#[test]
fn unsuitable_devices_are_not_offered() {
    let large = "4294967296";
    assert_eq!(
        offered(&[
            device("ok", "disk", "", "0", "", large),
            device("small", "disk", "", "0", "", "4294967295"),
            device("odd", "disk", "", "0", "", "many"),
            device("fixed", "disk", "", "1", "", large),
            device("cd", "rom", "", "0", "", large),
            device("part", "part", "ok", "0", "", large),
            device("loop", "loop", "", "0", "", large),
            "NAME=\"x\" TYPE=\"disk\" SIZE=\"9999999999\"\n".to_string(),
            "PATH=\"/dev/last\" NAME=\"last\" TYPE=\"disk\" SIZE=\"9999999999\"".to_string(),
        ]),
        ["/dev/ok", "/dev/loop", "/dev/last"]
    );
}

#[test]
fn disk_under_a_deep_stack_is_not_offered() {
    let size = "9999999999";
    let mut lines = vec![
        device("a", "disk", "", "0", "", size),
        device("b", "disk", "", "0", "", size),
    ];
    for i in 0..20 {
        let below = if i == 0 { "a".to_string() } else { format!("d{}", i - 1) };
        lines.push(device(&format!("d{}", i), "crypt", &below, "0", "", size));
    }
    assert_eq!(offered(&lines), ["/dev/a", "/dev/b"]);
    lines.push(device("top", "lvm", "d19", "0", "[SWAP]", size));
    assert_eq!(offered(&lines), ["/dev/b"]);
    lines.push(device("top", "lvm", "b", "0", "", size));
    assert!(offered(&lines).is_empty());
}

#[test]
fn values_are_taken_literally() {
    assert_eq!(pair_value("RM=\"1\" NAME=\"\"", "NAME"), Some(""));
    assert_eq!(pair_value("PKNAME=\"sda\" NAME=\"sda1\"", "NAME"), Some("sda1"));
    assert_eq!(pair_value("PKNAME=\"sda\" NAME=\"sda1\"", "PKNAME"), Some("sda"));
    assert_eq!(pair_value("PKNAME=\"sda\"", "NAME"), None);
    assert_eq!(pair_value("X=\"1\"\tNAME=\"a\"", "NAME"), Some("a"));
    assert_eq!(pair_value("X=\"1\"NAME=\"a\"", "NAME"), Some("a"));
    assert_eq!(pair_value("MAJ:MIN=\"8:0\" MIN=\"1\"", "MIN"), Some("1"));
    for before in ["A", "z", "9", "_", "-", ":", "%"] {
        assert_eq!(pair_value(&format!("{}NAME=\"a\"", before), "NAME"), None);
    }
    for before in [" ", "\t", "\"", ",", "=", "é"] {
        assert_eq!(pair_value(&format!("{}NAME=\"a\"", before), "NAME"), Some("a"));
    }
    assert_eq!(pair_value("NAME=\"open", "NAME"), None);
    assert_eq!(pair_value("NAME=x", "NAME"), None);
    assert!(installable_disks("").is_empty());
}

#[test]
fn order_of_lines_does_not_matter() {
    let size = "9999999999";
    let mut lines = vec![
        device("a", "disk", "", "0", "", size),
        device("b", "disk", "", "0", "", size),
        device("b1", "part", "b", "0", "", size),
        device("m", "raid0", "b1", "0", "/", size),
        device("c", "loop", "", "0", "", size),
    ];
    for _ in 0..lines.len() {
        lines.rotate_left(1);
        let mut disks = offered(&lines);
        disks.sort();
        assert_eq!(disks, ["/dev/a", "/dev/c"]);
    }
    lines.reverse();
    let mut disks = offered(&lines);
    disks.sort();
    assert_eq!(disks, ["/dev/a", "/dev/c"]);
}
