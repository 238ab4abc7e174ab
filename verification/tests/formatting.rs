use video_squeezer::formatting::{format_bytes, format_clock};

/// The size text as the standard library's float formatting writes it.
fn reference_bytes(bytes: u64) -> String {
    if bytes >= 1024 * 1024 * 1024 {
        format!("{:.2} GB", bytes as f64 / (1024.0 * 1024.0 * 1024.0))
    } else if bytes >= 1024 * 1024 {
        format!("{:.1} MB", bytes as f64 / (1024.0 * 1024.0))
    } else {
        format!("{:.1} KB", bytes as f64 / 1024.0)
    }
}

#[test]
fn formats_gibibytes_with_two_decimal_places() {
    assert_eq!(format_bytes(2 * 1024 * 1024 * 1024), "2.00 GB");
}

#[test]
fn formats_mebibytes_with_one_decimal_place() {
    assert_eq!(format_bytes(10 * 1024 * 1024), "10.0 MB");
}

#[test]
fn formats_kibibytes_and_rounds_ties_to_even() {
    assert_eq!(format_bytes(0), "0.0 KB");
    assert_eq!(format_bytes(256), "0.2 KB");
    assert_eq!(format_bytes(768), "0.8 KB");
    assert_eq!(format_bytes(1_048_575), "1024.0 KB");
    assert_eq!(format_bytes(9 * (1 << 27)), "1.12 GB");
    assert_eq!(format_bytes(u64::MAX), "17179869184.00 GB");
}

#[test]
fn byte_text_agrees_with_float_formatting() {
    let mut samples: Vec<u64> = vec![0, 1, 1023, 1024, 1025, 1 << 20, (1 << 20) - 1, 1 << 30, (1 << 30) - 1];
    for shift in 0..64 {
        let base: u64 = 1u64 << shift;
        for delta in [0u64, 1, 2, 3, 511, 512, 513, 1023] {
            samples.push(base.wrapping_add(delta));
            samples.push(base.wrapping_sub(delta));
        }
    }
    let mut x: u64 = 0x9E37_79B9_7F4A_7C15;
    for _ in 0..20_000 {
        x ^= x << 13;
        x ^= x >> 7;
        x ^= x << 17;
        samples.push(x >> (x % 64));
        samples.push((x % 4096) << 27);
    }
    for bytes in samples {
        assert_eq!(format_bytes(bytes), reference_bytes(bytes), "bytes = {bytes}");
    }
}

#[test]
fn formats_clock_times() {
    assert_eq!(format_clock(3_661), "1:01:01");
    assert_eq!(format_clock(59), "0:59");
    assert_eq!(format_clock(600), "10:00");
    assert_eq!(format_clock(36_000), "10:00:00");
}
