use rustdrop::size_format::format_file_size;

/// The formula the sizes are printed with, in floating point.
fn reference(bytes: u64, unit: Option<&str>) -> String {
    let units = ["B", "KB", "MB", "GB", "TB"];
    if let Some(u) = unit {
        let requested = u.to_uppercase();
        if let Some(idx) = units.iter().position(|&x| x == requested) {
            let size = bytes as f64 / 1024_f64.powi(idx as i32);
            return format!("{:.2}{}", size, requested);
        }
    }
    let mut size = bytes as f64;
    let mut unit_idx = 0;
    while size >= 1024.0 && unit_idx < units.len() - 1 {
        size /= 1024.0;
        unit_idx += 1;
    }
    format!("{:.2}{}", size, units[unit_idx])
}

#[test]
fn automatic_units() {
    assert_eq!(format_file_size(0, None), "0.00B");
    assert_eq!(format_file_size(1023, None), "1023.00B");
    assert_eq!(format_file_size(1024, None), "1.00KB");
    assert_eq!(format_file_size(1536, None), "1.50KB");
    assert_eq!(format_file_size(1_048_576, None), "1.00MB");
    assert_eq!(format_file_size(u64::MAX, None), "16777216.00TB");
}

#[test]
fn requested_units_ignore_case() {
    assert_eq!(format_file_size(1536, Some("kb")), "1.50KB");
    assert_eq!(format_file_size(1536, Some("B")), "1536.00B");
    assert_eq!(format_file_size(3 * 1024 * 1024 * 1024, Some("gb")), "3.00GB");
    assert_eq!(format_file_size(1, Some("TB")), "0.00TB");
}

#[test]
fn unknown_units_fall_back_to_automatic() {
    assert_eq!(format_file_size(1536, Some("xx")), "1.50KB");
    assert_eq!(format_file_size(1536, Some("")), "1.50KB");
}

#[test]
fn agrees_with_floating_point_formatting() {
    let mut values: Vec<u64> = vec![0, 1, 5, 1023, 1024, 1025, 10_239, 10_240, 123_456_789];
    let mut x: u64 = 0x9E37_79B9_7F4A_7C15;
    for _ in 0..3000 {
        x ^= x << 13;
        x ^= x >> 7;
        x ^= x << 17;
        values.push(x >> (x % 60));
        values.push(x);
    }
    for k in 0..5u32 {
        let p = 1024u64.pow(k);
        for d in [p.saturating_sub(1), p, p + 1, p * 5 + p / 200, p * 5 + p / 200 + 1] {
            values.push(d);
        }
    }
    for v in values {
        for unit in [None, Some("b"), Some("KB"), Some("mb"), Some("Gb"), Some("tb"), Some("PB")] {
            assert_eq!(format_file_size(v, unit), reference(v, unit), "{v} {unit:?}");
        }
    }
}
