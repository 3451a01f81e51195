use proc_lens::app::format_bytes;
use proc_lens::units::{format_bytes_long, format_rate};

fn float_short(bytes: u64) -> String {
    const KIB: f64 = 1024.0;
    const MIB: f64 = 1024.0 * KIB;
    const GIB: f64 = 1024.0 * MIB;
    let value = bytes as f64;
    if value >= GIB {
        format!("{:.2}G", value / GIB)
    } else if value >= MIB {
        format!("{:.1}M", value / MIB)
    } else if value >= KIB {
        format!("{:.1}K", value / KIB)
    } else {
        format!("{bytes}B")
    }
}

fn float_long(bytes: u64) -> String {
    const KIB: f64 = 1024.0;
    const MIB: f64 = 1024.0 * KIB;
    const GIB: f64 = 1024.0 * MIB;
    let value = bytes as f64;
    if value >= GIB {
        format!("{:.2} GiB", value / GIB)
    } else if value >= MIB {
        format!("{:.2} MiB", value / MIB)
    } else if value >= KIB {
        format!("{:.2} KiB", value / KIB)
    } else {
        format!("{bytes} B")
    }
}

fn samples() -> Vec<u64> {
    let mut values = vec![
        0,
        1,
        512,
        1023,
        1024,
        1075,
        1076,
        1536,
        10_239,
        1_048_575,
        1_048_576,
        1_572_864,
        1_153_434,
        1_073_741_823,
        1_073_741_824,
        1_207_959_552,
        1_615_194_849,
        5_368_709_120,
        (1u64 << 53) - 1,
        (1u64 << 53) + 1,
        (1u64 << 60) + 12_345,
        u64::MAX - 1,
        u64::MAX,
    ];
    let mut x: u64 = 7;
    for _ in 0..2000 {
        x = x.wrapping_mul(6364136223846793005).wrapping_add(1442695040888963407);
        values.push(x >> (x % 60));
    }
    for k in 0..4000u64 {
        values.push(k * 5_368_709);
        values.push(k * 52_429);
    }
    values
}

#[test]
fn byte_counts_are_written_as_float_formatting_writes_them() {
    for bytes in samples() {
        assert_eq!(format_bytes(bytes), float_short(bytes), "{bytes}");
        assert_eq!(format_bytes_long(bytes), float_long(bytes), "{bytes}");
    }
}

#[test]
fn byte_count_units_and_rates() {
    assert_eq!(format_bytes(512), "512B");
    assert_eq!(format_bytes(1536), "1.5K");
    assert_eq!(format_bytes(5 * 1024 * 1024), "5.0M");
    assert_eq!(format_bytes(3 * 1024 * 1024 * 1024 / 2), "1.50G");
    assert_eq!(format_bytes_long(2048), "2.00 KiB");
    assert_eq!(format_rate(1024), "1.0K/s");
}

#[test]
fn exact_halves_round_to_even_like_float_formatting() {
    assert_eq!(format_bytes(1_207_959_552), "1.12G");
    assert_eq!(float_short(1_207_959_552), "1.12G");
}
