use sys_monitor::collect::human;
use sys_monitor::text::{decimal_string, whole_gigabytes};
use sys_monitor::ui::bytes;

fn reference_human(bytes: u64) -> String {
    const U: [&str; 4] = ["B", "KB", "MB", "GB"];
    let mut v = bytes as f64;
    let mut i = 0;
    while v >= 1024.0 && i < U.len() - 1 {
        v /= 1024.0;
        i += 1;
    }
    format!("{:.1} {}", v, U[i])
}

fn samples() -> Vec<u64> {
    let mut v: Vec<u64> = vec![
        0, 1, 9, 10, 99, 1023, 1024, 1025, 1075, 1076, 1127, 1280, 1331, 1536, 1792, 2304,
        10 * 1024 - 52, 10 * 1024 - 51, 1024 * 1024 - 1, 1024 * 1024, 1024 * 1024 + 52_428,
        1024 * 1024 * 5 / 4, (1 << 30) - 1, 1 << 30, (1 << 30) + (1 << 26), 3 << 29,
        (1 << 53) - 1, 1 << 53, (1 << 53) + 1, (1 << 53) + 3, (1 << 54) + 2, (1 << 54) + 6,
        u64::MAX, u64::MAX - 1, u64::MAX / 3, 1_400_000_000, 320_000_000, 1_000_000,
    ];
    // Ties of the tenths digit in every unit, and their neighbours.
    for unit in [1u64 << 10, 1 << 20, 1 << 30] {
        for k in [1u64, 3, 5, 7, 9, 11, 13, 15, 17, 19, 21, 39, 2047] {
            let t = unit / 20 * k + unit;
            v.push(t);
            v.push(t - 1);
            v.push(t + 1);
        }
    }
    let mut x: u64 = 0x9E37_79B9_7F4A_7C15;
    for _ in 0..20_000 {
        x ^= x << 13;
        x ^= x >> 7;
        x ^= x << 17;
        v.push(x >> (x % 64));
    }
    v
}

#[test]
fn human_matches_float_formatting() {
    for b in samples() {
        assert_eq!(human(b), reference_human(b), "bytes = {b}");
        assert_eq!(bytes(b), reference_human(b), "bytes = {b}");
    }
}

#[test]
fn human_examples() {
    assert_eq!(human(0), "0.0 B");
    assert_eq!(human(1023), "1023.0 B");
    assert_eq!(human(1024), "1.0 KB");
    assert_eq!(human(1280), "1.2 KB");
    assert_eq!(human(1331), "1.3 KB");
    assert_eq!(human(1536), "1.5 KB");
    assert_eq!(human(1024 * 1024 * 3 / 2), "1.5 MB");
    assert_eq!(human(1 << 40), "1024.0 GB");
    assert_eq!(bytes(1_400_000_000), "1.3 GB");
    assert_eq!(bytes(320_000_000), "305.2 MB");
}

#[test]
fn whole_gb_matches_float_formatting() {
    for b in samples() {
        let reference = format!("{:.0}", b as f64 / 1_073_741_824.0);
        assert_eq!(whole_gigabytes(b).to_string(), reference, "bytes = {b}");
    }
}

#[test]
fn decimal_examples() {
    assert_eq!(decimal_string(0), "0");
    assert_eq!(decimal_string(7), "7");
    assert_eq!(decimal_string(10), "10");
    assert_eq!(decimal_string(501), "501");
    assert_eq!(decimal_string(u64::MAX), u64::MAX.to_string());
}
