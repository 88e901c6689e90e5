use genpack_install::backend::human_size;

fn by_doubles(bytes: u64) -> String {
    const UNITS: [&str; 6] = ["B", "KiB", "MiB", "GiB", "TiB", "PiB"];
    let mut size = bytes as f64;
    let mut unit = 0;
    while size >= 1024.0 && unit < UNITS.len() - 1 {
        size /= 1024.0;
        unit += 1;
    }
    if unit == 0 {
        format!("{} {}", bytes, UNITS[unit])
    } else {
        format!("{:.1} {}", size, UNITS[unit])
    }
}

#[test]
fn human_size_agrees_with_double_precision() {
    let mut n: u64 = 1;
    for _ in 0..200_000u32 {
        n = n.wrapping_mul(6364136223846793005).wrapping_add(1442695040888963407);
        for shift in [0u32, 3, 10, 17, 30, 41, 50, 54] {
            let bytes = n >> shift;
            assert_eq!(human_size(bytes), by_doubles(bytes));
        }
    }
}

#[test]
fn human_size_at_ties_and_limits() {
    for k in 0..4096u64 {
        for unit in [1u64 << 10, 1 << 20, 1 << 30, 1 << 40, 1 << 50] {
            let at = k * unit / 20;
            for bytes in [at.saturating_sub(1), at, at + 1, at + 600, at.saturating_sub(600)] {
                assert_eq!(human_size(bytes), by_doubles(bytes));
            }
        }
    }
    assert_eq!(human_size(0), "0 B");
    assert_eq!(human_size(1023), "1023 B");
    assert_eq!(human_size(1024), "1.0 KiB");
    assert_eq!(human_size(1280), "1.2 KiB");
    assert_eq!(human_size(1792), "1.8 KiB");
    assert_eq!(human_size(1024 * 1024 - 1), "1024.0 KiB");
    assert_eq!(human_size(2_000_398_934_016), "1.8 TiB");
    assert_eq!(human_size(u64::MAX), "16384.0 PiB");
    assert_eq!(human_size(u64::MAX), by_doubles(u64::MAX));
}
