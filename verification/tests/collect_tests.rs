use sys_monitor::collect::{delta, disk_sample, net_sample, DiskReading};

#[test]
fn first_sample_is_zero() {
    let mut prev = None;
    assert_eq!(delta(&mut prev, 100), 0);
}

#[test]
fn computes_difference() {
    let mut prev = None;
    delta(&mut prev, 100);
    assert_eq!(delta(&mut prev, 150), 50);
}

#[test]
fn saturates_on_reset() {
    let mut prev = None;
    delta(&mut prev, 200);
    assert_eq!(delta(&mut prev, 10), 0);
}

#[test]
fn delta_remembers_latest_counter() {
    let mut prev = Some(5);
    assert_eq!(delta(&mut prev, 5), 0);
    assert_eq!(prev, Some(5));
    assert_eq!(delta(&mut prev, u64::MAX), u64::MAX - 5);
    assert_eq!(prev, Some(u64::MAX));
}

fn reference_human(bytes: u64) -> String {
    const U: [&str; 4] = ["B", "KB", "MB", "GB"];
    let mut v = bytes as f64;
    let mut i = 0;
    while v >= 1024.0 && i < U.len() - 1 {
        v /= 1024.0;
        i += 1;
    }
    format!("{:.1} {}", v, U[i])
}

#[test]
fn net_sample_sums_interfaces() {
    let s = net_sample(&vec![(1000, 24), (2048, 0), (0, 1_000_000)]);
    assert_eq!(s.rx, 3048);
    assert_eq!(s.tx, 1_000_024);
    assert_eq!(s.total, 1_003_072);
    assert_eq!(
        s.headline,
        format!("↓ {}/s   ↑ {}/s", reference_human(3048), reference_human(1_000_024))
    );
    assert_eq!(s.headline, "↓ 3.0 KB/s   ↑ 976.6 KB/s");
}

#[test]
fn net_sample_with_no_interfaces() {
    let s = net_sample(&vec![]);
    assert_eq!((s.rx, s.tx, s.total), (0, 0, 0));
    assert_eq!(s.headline, "↓ 0.0 B/s   ↑ 0.0 B/s");
}

#[test]
fn disk_sample_sums_and_headline() {
    let gb: u64 = 1 << 30;
    let disks = vec![
        DiskReading { read_bytes: 512, written_bytes: 1536, total_space: 100 * gb, available_space: 40 * gb + gb / 2 },
        DiskReading { read_bytes: 0, written_bytes: 0, total_space: 10 * gb, available_space: 11 * gb },
    ];
    let s = disk_sample(&disks);
    assert_eq!(s.read, 512);
    assert_eq!(s.written, 1536);
    assert_eq!(s.total, 110 * gb);
    assert_eq!(s.used, 59 * gb + gb / 2);
    assert_eq!(s.value, 2048);
    let reference = format!(
        "R {}/s  W {}/s   {:.0}/{:.0} GB used",
        reference_human(512),
        reference_human(1536),
        s.used as f64 / 1_073_741_824.0,
        s.total as f64 / 1_073_741_824.0
    );
    assert_eq!(s.headline, reference);
    assert_eq!(s.headline, "R 512.0 B/s  W 1.5 KB/s   60/110 GB used");
}

#[test]
fn deltas_of_a_rising_counter_add_up() {
    let readings = [7u64, 7, 19, 400, 401, 1_000_000];
    let mut prev = None;
    let total: u64 = readings.iter().map(|&c| delta(&mut prev, c)).sum();
    assert_eq!(total, 1_000_000 - 7);
}
