use v4l2top::format::format_bytes;

/// The same size, by way of floating-point numbers.
fn by_floats(bytes: u64) -> String {
    const KB: f64 = 1024.0;
    const MB: f64 = KB * 1024.0;
    const GB: f64 = MB * 1024.0;
    let b = bytes as f64;
    if b >= GB {
        format!("{:.1}G", b / GB)
    } else if b >= MB {
        format!("{:.1}M", b / MB)
    } else if b >= KB {
        format!("{:.0}K", b / KB)
    } else {
        format!("{b}B")
    }
}

#[test]
fn sizes_in_full() {
    assert_eq!(format_bytes(0, true), "0 B");
    assert_eq!(format_bytes(1_048_576, true), "1048576 B");
    assert_eq!(format_bytes(u64::MAX, true), "18446744073709551615 B");
}

#[test]
fn sizes_in_short() {
    assert_eq!(format_bytes(0, false), "0B");
    assert_eq!(format_bytes(1023, false), "1023B");
    assert_eq!(format_bytes(1024, false), "1K");
    assert_eq!(format_bytes(1536, false), "2K");
    assert_eq!(format_bytes(2560, false), "2K");
    assert_eq!(format_bytes(1_048_575, false), "1024K");
    assert_eq!(format_bytes(1_048_576, false), "1.0M");
    assert_eq!(format_bytes(3_110_400, false), "3.0M");
    assert_eq!(format_bytes(1_310_720, false), "1.2M");
    assert_eq!(format_bytes(1_073_741_824, false), "1.0G");
    assert_eq!(format_bytes(u64::MAX, false), "17179869184.0G");
}

#[test]
fn sizes_round_as_doubles_do() {
    let mut sizes: Vec<u64> = vec![0, 1, u64::MAX, u64::MAX - 1];
    for shift in 0..64 {
        let base = 1u64 << shift;
        for delta in [0u64, 1, 2, 3, 511, 512, 513, 1023, 1024, 1025, 52428, 52429] {
            sizes.push(base.saturating_add(delta));
            sizes.push(base.saturating_sub(delta));
            sizes.push(base.saturating_add(base / 4).saturating_add(delta));
            sizes.push(base.saturating_add(base / 20).saturating_add(delta));
        }
    }
    let mut x = 88172645463325252u64;
    for i in 0..20000u64 {
        x ^= x << 13;
        x ^= x >> 7;
        x ^= x << 17;
        sizes.push(x >> (i % 64));
    }
    for k in 0..5000u64 {
        sizes.push(k * 512);
        sizes.push(k * 52_428 + 1_048_576);
    }
    for bytes in sizes {
        assert_eq!(format_bytes(bytes, false), by_floats(bytes), "{bytes}");
    }
}
