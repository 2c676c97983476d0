use optionfiles::fs::{human_size, SortMode, Timestamp};
use optionfiles::metadata::format_time;

#[test]
fn sizes_are_readable() {
    assert_eq!(human_size(12), "12 B");
    assert_eq!(human_size(1536), "1.5 KB");
}

#[test]
fn sort_cycles() {
    assert_eq!(SortMode::Name.next(), SortMode::Size);
    assert_eq!(SortMode::Size.next(), SortMode::Modified);
}

#[test]
fn formats_epoch_as_date() {
    let t = Timestamp { secs: 0, nanos: 0 };
    assert_eq!(format_time(t), "1970-01-01 00:00");
}

#[test]
fn formats_known_timestamp() {
    // 2026-08-12 09:10 UTC.
    let t = Timestamp { secs: 1786525800, nanos: 0 };
    let out = format_time(t);
    assert!(out.starts_with("2026-08-12"), "got {out}");
}

#[test]
fn sort_mode_returns_after_three_steps() {
    for mode in [SortMode::Name, SortMode::Size, SortMode::Modified] {
        assert_eq!(mode.next().next().next(), mode);
    }
    assert_eq!(SortMode::Modified.next(), SortMode::Name);
    assert_eq!(SortMode::Name.label(), "name");
    assert_eq!(SortMode::Size.label(), "size");
    assert_eq!(SortMode::Modified.label(), "date");
}

#[test]
fn sizes_match_one_decimal_formatting_of_doubles() {
    let units = ["B", "KB", "MB", "GB", "TB"];
    let mut samples: Vec<u64> = vec![
        0, 1, 1023, 1024, 1075, 1076, 1536, 10239, 10240, 1048575, 1048576, 1572864,
        1073741823, 1073741824, 1099511627775, 1099511627776, 1125899906842624,
        u64::MAX, u64::MAX - 1, 9007199254740993,
    ];
    let mut x: u64 = 0x9e3779b97f4a7c15;
    for _ in 0..2000 {
        x ^= x << 13;
        x ^= x >> 7;
        x ^= x << 17;
        samples.push(x >> (x % 64));
    }
    for size in samples {
        let mut value = size as f64;
        let mut unit = 0;
        while value >= 1024.0 && unit < units.len() - 1 {
            value /= 1024.0;
            unit += 1;
        }
        let expected = if unit == 0 {
            format!("{size} B")
        } else {
            format!("{value:.1} {}", units[unit])
        };
        assert_eq!(human_size(size), expected, "size {size}");
    }
}

#[test]
fn sizes_pick_the_largest_unit() {
    assert_eq!(human_size(0), "0 B");
    assert_eq!(human_size(1023), "1023 B");
    assert_eq!(human_size(1024), "1.0 KB");
    assert_eq!(human_size(1048576), "1.0 MB");
    assert_eq!(human_size(1073741824), "1.0 GB");
    assert_eq!(human_size(1099511627776), "1.0 TB");
    assert_eq!(human_size(1125899906842624), "1024.0 TB");
}

#[test]
fn dates_before_the_epoch_are_named() {
    assert_eq!(format_time(Timestamp { secs: -1, nanos: 0 }), "before 1970");
    assert_eq!(format_time(Timestamp { secs: 951782400, nanos: 0 }), "2000-02-29 00:00");
    assert_eq!(format_time(Timestamp { secs: 86399, nanos: 999_999_999 }), "1970-01-01 23:59");
}
