use genpack_install::number::{decimal_text, parse_u32, parse_u64};
use genpack_install::path::{
    file_name_of, file_name_text, is_same_path, join_path, parent_dir_of, partition_path,
    relative_path,
};
use genpack_install::split::{join, lines_of, second_field_of, words_of};
use genpack_install::text::{
    ends_with, position_of, starts_with, trim, trim_end_of, trim_of, CharClass,
};
use std::path::Path;

const SAMPLES: [&str; 22] = [
    "",
    " ",
    "\n",
    "\r\n",
    "a",
    "a\n",
    "a\r\n",
    "a\r",
    "a\nb",
    "a\r\nb\r\n\r\nc\r",
    "\n\na\n",
    "  two words\t here \u{3000}end\u{a0}",
    "x\u{2028}y\u{85}z",
    "root=/dev/sda2 rw",
    "日本語 テキスト\n二行目\r\n",
    "key:value:rest",
    "key:",
    ":",
    "no field",
    "\u{200b}not white\u{200b}",
    "tab\tand\u{b}vertical\u{c}form",
    "- ☃ -",
];

#[test]
fn white_space_is_that_of_unicode() {
    for n in 0..=0x10ffffu32 {
        if let Some(c) = char::from_u32(n) {
            assert_eq!(CharClass::Whitespace.contains(c), c.is_whitespace(), "{:x}", n);
            assert_eq!(CharClass::NonDigit.contains(c), !c.is_ascii_digit(), "{:x}", n);
        }
    }
}

#[test]
fn texts_are_taken_apart_as_usual() {
    for s in SAMPLES {
        assert_eq!(trim(s), s.trim());
        assert_eq!(trim_end_of(s, CharClass::Whitespace), s.trim_end());
        assert_eq!(lines_of(s), s.lines().collect::<Vec<&str>>());
        assert_eq!(words_of(s), s.split_whitespace().collect::<Vec<&str>>());
        assert_eq!(second_field_of(s, ':'), s.split(':').nth(1));
        for p in SAMPLES {
            assert_eq!(starts_with(s, p), s.starts_with(p));
            assert_eq!(ends_with(s, p), s.ends_with(p));
            let found = s.find(p).map(|i| s[..i].chars().count());
            assert_eq!(position_of(s, p), found);
        }
        let words = words_of(s);
        assert_eq!(join(&words, " "), words.join(" "));
        assert_eq!(words_of(&join(&words, " ")), words);
    }
    assert_eq!(trim_of("\"\"ja\"\"", CharClass::Only('"')), "ja");
}

#[test]
fn numbers_are_read_as_usual() {
    for s in [
        "",
        "0",
        "00012",
        "+7",
        "+",
        "-1",
        "++1",
        "1_000",
        " 1",
        "4294967295",
        "4294967296",
        "18446744073709551615",
        "18446744073709551616",
        "99999999999999999999999999",
        "٣",
        "12a",
    ] {
        assert_eq!(parse_u64(s), s.parse::<u64>().ok(), "{}", s);
        assert_eq!(parse_u32(s), s.parse::<u32>().ok(), "{}", s);
    }
}

#[test]
fn written_numbers_are_read_back() {
    for n in [0u64, 1, 9, 10, 11, 99, 100, 4096, u64::MAX - 1, u64::MAX] {
        assert_eq!(decimal_text(n as u128), n.to_string());
        assert_eq!(parse_u64(&decimal_text(n as u128)), Some(n));
    }
    assert_eq!(decimal_text(u128::MAX), u128::MAX.to_string());
}

#[test]
fn paths_are_joined_and_taken_apart_as_usual() {
    for base in ["/mnt", "/mnt/", "", "/", "a/b"] {
        for rel in ["boot", "efi/boot", "/usr/lib", "", "x/"] {
            let expected = Path::new(base).join(rel);
            assert_eq!(join_path(base, rel), expected.to_str().unwrap());
        }
    }
    for p in [
        "/dev/sda", "sda", "/", "", "/dev/", "a/.", "a/./", "a/..", "..", ".", "a/b/../c", "//x",
    ] {
        let name = Path::new(p).file_name().map(|n| n.to_str().unwrap());
        assert_eq!(file_name_of(p), name, "{}", p);
        assert_eq!(file_name_text(p), name.unwrap_or(""));
    }
    assert_eq!(parent_dir_of("/mnt/overlays/a.dtbo"), Some("/mnt/overlays"));
    assert_eq!(parent_dir_of("/m//x"), Some("/m"));
    assert_eq!(parent_dir_of("/m/./x"), Some("/m"));
    assert_eq!(parent_dir_of("/x"), Some("/"));
    assert_eq!(parent_dir_of("x"), Some(""));
    assert_eq!(parent_dir_of("/"), None);
    assert_eq!(parent_dir_of(""), None);
    assert_eq!(relative_path("/i/boot", "/i/boot/a/b"), "a/b");
    assert_eq!(relative_path("/i/boot", "/i/bootx/a"), "/i/bootx/a");
}

/// All texts of up to seven characters out of a few that matter in paths.
fn all_paths() -> Vec<String> {
    let mut all = vec![String::new()];
    let mut from = 0;
    for _ in 0..7 {
        let to = all.len();
        for i in from..to {
            for c in ['/', '.', 'a'] {
                all.push(format!("{}{}", all[i], c));
            }
        }
        from = to;
    }
    all
}

#[test]
fn every_path_is_taken_apart_as_usual() {
    for p in all_paths() {
        let path = Path::new(&p);
        assert_eq!(parent_dir_of(&p), path.parent().map(|d| d.to_str().unwrap()), "{}", p);
        assert_eq!(file_name_of(&p), path.file_name().map(|n| n.to_str().unwrap()), "{}", p);
        for rel in ["", "x", "/x", "x/y", "./x"] {
            assert_eq!(join_path(&p, rel), path.join(rel).to_str().unwrap());
        }
        for other in ["", "/", ".", "a", "/a", "a/a", "./a", "/a/a", "a/.."] {
            assert_eq!(is_same_path(&p, other), path == Path::new(other), "{} {}", p, other);
        }
    }
}

#[test]
fn paths_are_the_same_by_their_components() {
    let paths = [
        "", ".", "./", "..", "/", "//", "/.", "a", "./a", "a/", "a/.", "a//b", "a/b", "a/./b", "/a",
        "//a", "/./a", "a/../b", "A", "/a/b/.", "././a", "./.", ".a", "a.",
    ];
    for a in paths {
        for b in paths {
            assert_eq!(is_same_path(a, b), Path::new(a) == Path::new(b), "{} {}", a, b);
        }
    }
}

#[test]
fn partitions_of_a_disk_are_apart() {
    assert_eq!(partition_path("/dev/sda", 1), "/dev/sda1");
    assert_eq!(partition_path("/dev/nvme0n1", 1), "/dev/nvme0n1p1");
    assert_eq!(partition_path("/dev/mmcblk0", 2), "/dev/mmcblk0p2");
    assert_eq!(partition_path("/dev/loop1", 12), "/dev/loop1p12");
    assert_ne!(partition_path("/dev/sda", 1), partition_path("/dev/sda", 2));
}
