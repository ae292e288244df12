use netmon::monitor::units::{
    as_double, format_bandwidth, format_bytes, format_bytes_or_bits, format_scaled,
};

fn samples() -> Vec<u64> {
    let mut list = vec![
        0, 1, 9, 10, 1023, 1024, 1025, 1536, 1587, 1588, 1075, 1076, 51, 52, 1_048_575, 1_048_576,
        1_048_577, 1_572_864, 10_485_760, 500_000_000, 1 << 30, (1 << 30) - 1, 1 << 40, (1 << 40) - 1,
        1 << 50, (1 << 53) - 1, 1 << 53, (1 << 53) + 1, (1 << 53) + 2, (1 << 53) + 3, (1 << 54) + 2,
        (1 << 54) + 6, (1 << 63) - 1, 1 << 63, (1 << 63) + 1023, (1 << 63) + 1024, (1 << 63) + 1025,
        (1 << 63) + 3072, u64::MAX, u64::MAX - 1, u64::MAX - 1023, u64::MAX - 1024,
    ];
    let mut seed: u64 = 42;
    for _ in 0..4000 {
        seed = seed.wrapping_mul(6364136223846793005).wrapping_add(1442695040888963407);
        list.push(seed >> (seed % 64));
    }
    for n in 0..6000u64 {
        list.push(n);
        list.push(n * 512 / 10);
    }
    for k in 0..2000u64 {
        list.push((1 << 20) + k * 52_429 / 2);
    }
    list
}

#[test]
fn large_amounts_are_rounded_as_doubles_are() {
    for n in samples() {
        assert_eq!(as_double(n), (n as f64) as u128, "{n}");
    }
}

#[test]
fn bandwidths_are_formatted_as_doubles_are() {
    for n in samples() {
        let expected = if n < 1024 {
            format!("{} B/s", n)
        } else if n < 1024 * 1024 {
            format!("{:.1} KB/s", (n as f64) / 1024.0)
        } else {
            format!("{:.1} MB/s", (n as f64) / (1024.0 * 1024.0))
        };
        assert_eq!(format_bandwidth(n), expected, "{n}");
    }
}

fn scaled(mut value: f64, names: [&str; 5]) -> String {
    let mut idx = 0usize;
    while value >= 1024.0 && idx < names.len() - 1 {
        value /= 1024.0;
        idx += 1;
    }
    format!("{value:.2} {}", names[idx])
}

#[test]
fn amounts_are_formatted_as_doubles_are() {
    for n in samples() {
        assert_eq!(
            format_bytes_or_bits(n, false),
            scaled(n as f64, ["B", "KB", "MB", "GB", "TB"]),
            "{n}"
        );
        assert_eq!(
            format_bytes_or_bits(n, true),
            scaled((n as f64) * 8.0, ["b", "Kb", "Mb", "Gb", "Tb"]),
            "{n}"
        );
        assert_eq!(format_bytes(n), format_bytes_or_bits(n, false));
    }
}

#[test]
fn some_amounts_by_hand() {
    assert_eq!(format_bandwidth(0), "0 B/s");
    assert_eq!(format_bandwidth(1023), "1023 B/s");
    assert_eq!(format_bandwidth(1024), "1.0 KB/s");
    assert_eq!(format_bandwidth(1536), "1.5 KB/s");
    assert_eq!(format_bandwidth(1_048_576), "1.0 MB/s");
    assert_eq!(format_bandwidth(5_767_168), "5.5 MB/s");
    assert_eq!(format_bytes(0), "0.00 B");
    assert_eq!(format_bytes(1023), "1023.00 B");
    assert_eq!(format_bytes(1536), "1.50 KB");
    assert_eq!(format_bytes(1 << 40), "1.00 TB");
    assert_eq!(format_bytes_or_bits(128, true), "1.00 Kb");
    assert_eq!(format_bytes(1 << 60), "1048576.00 TB");
    assert_eq!(format_scaled(1025, false), "1.00 KB");
    assert_eq!(format_scaled(1030, true), "1.01 Kb");
}

#[test]
fn ties_go_to_the_even_digit() {
    // 1.25 and 1.75 lie in the middle between two tenths.
    assert_eq!(format_bandwidth(1280), "1.2 KB/s");
    assert_eq!(format_bandwidth(1792), "1.8 KB/s");
    // 1.125 and 1.375 lie in the middle between two hundredths.
    assert_eq!(format_bytes(1152), "1.12 KB");
    assert_eq!(format_bytes(1408), "1.38 KB");
}
