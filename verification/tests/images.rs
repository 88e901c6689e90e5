use genpack_install::backend::ImageMetadata;
use genpack_install::images::{
    describe_image, filter_installable_images, has_squashfs_magic, image_candidates, read_banner,
    read_genpack_metadata, read_meta_line, sort_images, BootFile, GenpackMeta,
};
use genpack_install::machine::RealBackend;

#[test]
fn scan_ignores_system_images_but_rescues_system_img() {
    let items = vec![
        ("genpack.squashfs".to_string(), 1),
        ("system.img".to_string(), 2),
        ("system.old".to_string(), 3),
    ];
    assert_eq!(filter_installable_images(items), vec![1]);

    let items = vec![("system.img".to_string(), 2), ("system.old".to_string(), 3)];
    assert_eq!(filter_installable_images(items), vec![2]);

    let items: Vec<(String, i32)> = vec![("system.old".to_string(), 3)];
    assert!(filter_installable_images(items).is_empty());

    let items = vec![("a.squashfs".to_string(), 1), ("b.squashfs".to_string(), 2)];
    assert_eq!(filter_installable_images(items), vec![1, 2]);
}

fn image(name: &str, version: &str) -> ImageMetadata {
    ImageMetadata {
        path: format!("/b/{}", name),
        filename: name.to_string(),
        size: 1,
        arch: String::new(),
        artifact: String::new(),
        banner: String::new(),
        version: version.to_string(),
        arch_match: true,
    }
}

#[test]
fn images_are_sorted_by_name_and_stay_in_order_otherwise() {
    let names = ["b", "a", "ab", "", "é", "z", "Z", "a", "日本", "b", "\u{1f600}", "\u{ffff}"];
    let mut numbered: Vec<(String, String)> = Vec::new();
    let mut given = Vec::new();
    for (i, n) in names.iter().enumerate() {
        numbered.push((n.to_string(), i.to_string()));
        given.push(image(n, &i.to_string()));
    }
    numbered.sort_by(|a, b| a.0.cmp(&b.0));
    let sorted: Vec<(String, String)> =
        sort_images(given).into_iter().map(|m| (m.filename, m.version)).collect();
    assert_eq!(sorted, numbered);
}

#[test]
fn squashfs_is_told_by_its_first_bytes() {
    assert!(has_squashfs_magic(&Some(b"hsqs".to_vec())));
    assert!(!has_squashfs_magic(&Some(b"sqsh".to_vec())));
    assert!(!has_squashfs_magic(&Some(b"hsq".to_vec())));
    assert!(!has_squashfs_magic(&Some(b"hsqsx".to_vec())));
    assert!(!has_squashfs_magic(&None));
}

fn file(path: &str, regular: bool, head: &[u8]) -> BootFile {
    BootFile { path: path.to_string(), regular, head: Some(head.to_vec()) }
}

#[test]
fn candidates_are_the_images_among_the_files() {
    let found = image_candidates(Some(vec![
        file("/b/system.img", true, b"hsqs"),
        file("/b/dir.squashfs", false, b"hsqs"),
        file("/b/kernel", true, b"MZ\0\0"),
        file("/b/genpack", true, b"hsqs"),
        BootFile { path: "/b/short".to_string(), regular: true, head: None },
        file("/b/systemd.squashfs", true, b"hsqs"),
    ]));
    assert_eq!(found, ["/b/genpack", "/b/systemd.squashfs"]);
    let found = image_candidates(Some(vec![
        file("/b/system.img", true, b"hsqs"),
        file("/b/system.old", true, b"hsqs"),
        file("/b/kernel", true, b"MZ\0\0"),
    ]));
    assert_eq!(found, ["/b/system.img"]);
    assert!(image_candidates(None).is_empty());
}

#[test]
fn system_images_beside_an_ordinary_one_change_nothing() {
    let with = vec![
        ("system.img".to_string(), 1),
        ("a".to_string(), 2),
        ("system.old".to_string(), 3),
        ("b".to_string(), 4),
    ];
    let without = vec![("a".to_string(), 2), ("b".to_string(), 4)];
    assert_eq!(filter_installable_images(with), filter_installable_images(without));
}

#[test]
fn listed_images_can_be_installed() {
    let b = RealBackend::new();
    let list = |files: Vec<BootFile>| -> Vec<String> {
        let read = image_candidates(Some(files))
            .iter()
            .map(|p| b.read_image_metadata(p, Ok(1), meta(None, None), "x86_64"))
            .collect();
        b.scan_images(read).unwrap().into_iter().map(|m| m.filename).collect()
    };
    let ordinary = vec![
        file("/b/z", true, b"hsqs"),
        file("/b/system.img", true, b"hsqs"),
        file("/b/a", true, b"hsqs"),
        file("/b/c", true, b"ELF!"),
        file("/b/d", false, b"hsqs"),
    ];
    assert_eq!(list(ordinary), ["a", "z"]);
    let system = vec![
        file("/b/system.old", true, b"hsqs"),
        file("/b/system.img", true, b"hsqs"),
        file("/b/c", true, b"ELF!"),
    ];
    assert_eq!(list(system), ["system.img"]);
}

#[test]
fn metadata_is_read_as_far_as_it_is_there() {
    let m = read_genpack_metadata(
        Some(" x86_64\n"),
        Some("\n"),
        Some("  art \n  more  \n\n"),
        None,
    );
    assert_eq!(m.arch, Some("x86_64".to_string()));
    assert_eq!(m.artifact, None);
    assert_eq!(m.banner, Some("  art \n  more  ".to_string()));
    assert_eq!(m.version, None);
    assert_eq!(read_meta_line(Some(" a b ")), Some("a b".to_string()));
    assert_eq!(read_meta_line(None), None);
    assert_eq!(read_banner(Some("  AB  \n")), Some("  AB  ".to_string()));
    assert_eq!(read_banner(Some("AB\r\n\r\n")), Some("AB".to_string()));
    assert_eq!(read_banner(Some(" \n ")), Some(" \n ".to_string()));
    assert_eq!(read_banner(Some("\n\r\n")), None);
    assert_eq!(read_banner(None), None);
}

fn meta(arch: Option<&str>, artifact: Option<&str>) -> GenpackMeta {
    GenpackMeta {
        arch: arch.map(|s| s.to_string()),
        artifact: artifact.map(|s| s.to_string()),
        banner: None,
        version: Some("v1".to_string()),
    }
}

#[test]
fn image_is_described_by_what_it_says_and_by_its_name() {
    let m = describe_image("/b/walbrix.squashfs", 7, meta(Some("aarch64"), None), "x86_64");
    assert_eq!(m.path, "/b/walbrix.squashfs");
    assert_eq!(m.filename, "walbrix.squashfs");
    assert_eq!(m.size, 7);
    assert_eq!(m.arch, "aarch64");
    assert_eq!(m.artifact, "walbrix");
    assert_eq!(m.banner, "");
    assert_eq!(m.version, "v1");
    assert!(!m.arch_match);
    let m = describe_image("/b/system.img", 7, meta(None, Some("")), "x86_64");
    assert_eq!(m.arch, "");
    assert_eq!(m.artifact, "system.img");
    assert!(m.arch_match);
    let m = describe_image("/b/a", 7, meta(Some("x86_64"), Some("paravirt")), "x86_64");
    assert_eq!(m.artifact, "paravirt");
    assert!(m.arch_match);
    let m = describe_image("/", 7, meta(Some(""), None), "x86_64");
    assert_eq!(m.filename, "");
    assert!(m.arch_match);
}
