use genpack_install::backend::InstallOptions;
use genpack_install::layout::{
    bios_compatible, btrfs_arguments, disk_geometry, least_capacity_gib, partition_commands,
    vfat_arguments,
};
use genpack_install::settings::{
    default_authorized_keys, default_locale, default_timezone, system_ini,
};

fn options(hostname: &str, timezone: &str, locale: &str) -> InstallOptions {
    InstallOptions {
        disk: "/dev/sda".to_string(),
        image: "/b/a.squashfs".to_string(),
        superfloppy: false,
        timezone: timezone.to_string(),
        locale: locale.to_string(),
        hostname: hostname.to_string(),
        ssh_pubkey: "ssh-ed25519 AAAA".to_string(),
    }
}

#[test]
fn settings_are_written_where_there_are_any() {
    assert_eq!(
        system_ini(&options("host", "Asia/Tokyo", "ja_JP.UTF-8")),
        Some("hostname=host\ntimezone=Asia/Tokyo\nlocale=ja_JP.UTF-8\n".to_string())
    );
    assert_eq!(system_ini(&options("", " UTC ", "\t")), Some("timezone=UTC\n".to_string()));
    assert_eq!(system_ini(&options("", "", "C")), Some("locale=C\n".to_string()));
    assert_eq!(system_ini(&options("", " ", "")), None);
}

#[test]
fn time_zone_is_what_the_link_names() {
    assert_eq!(default_timezone(Some("/usr/share/zoneinfo/Asia/Tokyo")), "Asia/Tokyo");
    assert_eq!(default_timezone(Some("../usr/share/zoneinfo/zoneinfo/X")), "zoneinfo/X");
    assert_eq!(default_timezone(Some("/etc/other")), "UTC");
    assert_eq!(default_timezone(None), "UTC");
}

#[test]
fn locale_is_that_of_the_system() {
    assert_eq!(default_locale(Some("ja_JP.UTF-8"), Some("LANG=C\n")), "ja_JP.UTF-8");
    assert_eq!(default_locale(Some(""), Some("X=1\nLANG= \"de_DE.UTF-8\" \nLANG=C\n")), "de_DE.UTF-8");
    assert_eq!(default_locale(None, Some("LC_ALL=x\n")), "C");
    assert_eq!(default_locale(None, None), "C");
    assert_eq!(default_locale(None, Some(" LANG=x\n")), "C");
}

#[test]
fn keys_are_kept_without_comments() {
    assert_eq!(
        default_authorized_keys(Some("# mine\n\n ssh-rsa A \r\n\t#x\nssh-ed25519 B#c")),
        "ssh-rsa A\nssh-ed25519 B#c"
    );
    assert_eq!(default_authorized_keys(Some("")), "");
    assert_eq!(default_authorized_keys(None), "");
}

#[test]
fn boot_partition_holds_the_image() {
    const GIB: u64 = 1 << 30;
    for (size, gib) in [(0, 4), (GIB, 4), (GIB + 1, 4), (4 * GIB / 3 + 1, 5), (2 * GIB, 7)] {
        assert_eq!(least_capacity_gib(size), gib);
    }
    assert_eq!(least_capacity_gib(4 * GIB - 1), 12);
    assert_eq!(least_capacity_gib(u64::MAX), u64::MAX / GIB + 1);
}

#[test]
fn disk_is_started_by_bios_if_it_is_small() {
    assert_eq!(disk_geometry(Some("100\n"), Some("4096\n")), (51_200, 4096));
    assert_eq!(disk_geometry(None, None), (0, 512));
    assert_eq!(disk_geometry(Some("x"), Some("")), (0, 512));
    assert_eq!(disk_geometry(Some("18446744073709551615"), None), (u64::MAX, 512));
    assert!(bios_compatible(2 << 40, 512));
    assert!(!bios_compatible((2 << 40) + 1, 512));
    assert!(!bios_compatible(1, 4096));
}

#[test]
fn disk_is_partitioned_and_formatted() {
    assert_eq!(
        partition_commands("/dev/sda", 4, true, true),
        [
            "--script",
            "/dev/sda",
            "mklabel msdos",
            "mkpart primary fat32 1MiB 4GiB",
            "mkpart primary btrfs 4GiB -1",
            "set 1 boot on",
            "set 1 esp on",
        ]
    );
    let plain = [
        "--script",
        "/dev/sda",
        "mklabel gpt",
        "mkpart primary fat32 1MiB 1GiB",
        "mkpart primary btrfs 1GiB -1",
        "set 1 boot on",
    ];
    assert_eq!(partition_commands("/dev/sda", 1, false, true), plain);
    assert_eq!(partition_commands("/dev/sda", 1, false, false), plain);
    assert_eq!(partition_commands("/dev/sda", 1, true, false).len(), 6);
    assert_eq!(
        vfat_arguments("/dev/sda", true),
        ["-F", "32", "-s", "32", "-I", "-n", "BOOT", "/dev/sda"]
    );
    assert_eq!(
        vfat_arguments("/dev/sda1", false),
        ["-F", "32", "-s", "32", "-n", "BOOT", "/dev/sda1"]
    );
    assert_eq!(
        btrfs_arguments("/dev/sda2", "1A2B-3C4D"),
        ["-q", "-L", "data-1A2B-3C4D", "-f", "/dev/sda2"]
    );
}
