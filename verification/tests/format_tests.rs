use ferric::domain::ByteSize;
use ferric::ui::components::{format_seconds, human_size};

#[test]
fn test_human_size_bytes() {
    assert_eq!(human_size(0), "0 B");
    assert_eq!(human_size(512), "512 B");
    assert_eq!(human_size(1023), "1023 B");
}

#[test]
fn test_human_size_kilobytes() {
    assert_eq!(human_size(1024), "1 KiB");
    assert_eq!(human_size(1536), "2 KiB");
    assert_eq!(human_size(10240), "10 KiB");
}

#[test]
fn test_human_size_megabytes() {
    assert_eq!(human_size(1048576), "1.0 MiB");
    assert_eq!(human_size(10485760), "10.0 MiB");
    assert_eq!(human_size(1572864), "1.5 MiB");
}

#[test]
fn test_human_size_gigabytes() {
    assert_eq!(human_size(1073741824), "1.0 GiB");
    assert_eq!(human_size(2147483648), "2.0 GiB");
}

#[test]
fn test_format_seconds_short() {
    assert_eq!(format_seconds(0), "0s");
    assert_eq!(format_seconds(30), "30s");
    assert_eq!(format_seconds(59), "59s");
}

#[test]
fn test_format_seconds_minutes() {
    assert_eq!(format_seconds(60), "1m 0s");
    assert_eq!(format_seconds(90), "1m 30s");
    assert_eq!(format_seconds(3599), "59m 59s");
}

#[test]
fn test_format_seconds_hours() {
    assert_eq!(format_seconds(3600), "1h 0m");
    assert_eq!(format_seconds(3661), "1h 1m");
    assert_eq!(format_seconds(7200), "2h 0m");
}

fn by_floating_point(bytes: u64) -> String {
    const KB: f64 = 1024.0;
    const MB: f64 = KB * 1024.0;
    const GB: f64 = MB * 1024.0;
    let b = bytes as f64;
    if b >= GB {
        format!("{:.1} GiB", b / GB)
    } else if b >= MB {
        format!("{:.1} MiB", b / MB)
    } else if b >= KB {
        format!("{:.0} KiB", b / KB)
    } else {
        format!("{} B", bytes)
    }
}

#[test]
fn human_size_agrees_with_floating_point_formatting() {
    let mut samples: Vec<u64> = vec![
        0, 1, 9, 10, 999, 1023, 1024, 1025, 1535, 1536, 1537, 2047, 2048, 2559, 2560, 2561, 3584,
        1048063, 1048064, 1048575, 1048576, 1100000, 1101004, 1153433, 1153434, 1205862,
        104857600, 1073741823, 1073741824, 1127428915, 1127428916, 1181116006, 1234803098,
        2147483648, 16_000_000_000, 500_107_862_016, 4_000_787_030_016, 1 << 40, 1 << 50,
        (1 << 53) - 1,
    ];
    let mut x: u64 = 12345;
    for _ in 0..2000 {
        x = x.wrapping_mul(6364136223846793005).wrapping_add(1442695040888963407);
        samples.push(x >> 11);
        samples.push(x >> 30);
        samples.push(x >> 44);
    }
    for shift in 0..11u32 {
        for k in 0..64u64 {
            samples.push((u64::MAX >> shift).wrapping_sub(k * 97));
            samples.push(((1u64 << 53) << shift.min(10)).wrapping_add(k));
            samples.push(((1u64 << 53) << shift.min(10)).wrapping_sub(k));
        }
    }
    for k in 0..4096u64 {
        samples.push((1u64 << 63) + (k << 19) + 53687091);
        samples.push((1u64 << 62) + k * 107374182 + 1);
        samples.push(x.rotate_left((k % 64) as u32) ^ (k << 40));
    }
    for tenth in 0..200u64 {
        samples.push(tenth * 1048576 / 10);
        samples.push(tenth * 1048576 / 20 + 1048576);
        samples.push(tenth * 1073741824 / 20 + 1073741824);
        samples.push(tenth * 512 + 1024);
    }
    for bytes in samples {
        assert_eq!(human_size(bytes), by_floating_point(bytes), "for {}", bytes);
    }
}

#[test]
fn human_size_rounds_ties_to_even() {
    assert_eq!(human_size(2560), "2 KiB");
    assert_eq!(human_size(3584), "4 KiB");
    assert_eq!(human_size(1048576 + 52429), "1.1 MiB");
    assert_eq!(human_size(1073741824 + 1073741824 / 4), "1.2 GiB");
    assert_eq!(human_size(1073741824 + 3 * (1073741824 / 4)), "1.8 GiB");
}

#[test]
fn human_size_of_the_largest_count() {
    assert_eq!(human_size(u64::MAX), "17179869184.0 GiB");
}

#[test]
fn format_seconds_of_the_largest_count() {
    assert_eq!(format_seconds(u64::MAX), "5124095576030431h 0m");
}

#[test]
fn byte_size_reads_like_human_size() {
    assert_eq!(ByteSize::new(1536).to_string(), "2 KiB");
    assert_eq!(ByteSize::from(1572864).to_string(), "1.5 MiB");
    assert_eq!(ByteSize::zero().to_string(), "0 B");
    assert_eq!(ByteSize::new(7).as_u64(), 7);
    assert_eq!(ByteSize::zero().as_u64(), 0);
    assert!(ByteSize::new(1) < ByteSize::new(2));
}
