use irm::units::{human_readable_size, unit_of};

#[test]
fn test_human_readable_b() {
    assert_eq!(human_readable_size(1), "1.00 B");
}

#[test]
fn test_human_readable_kb() {
    assert_eq!(human_readable_size(1024), "1.00 KB");
}

#[test]
fn test_human_readable_mb() {
    assert_eq!(human_readable_size(1024 * 1024), "1.00 MB");
}

#[test]
fn test_human_readable_gb() {
    assert_eq!(human_readable_size(1024 * 1024 * 1024), "1.00 GB");
}

#[test]
fn test_human_readable_tb() {
    assert_eq!(human_readable_size(1024 * 1024 * 1024 * 1024), "1.00 TB");
}

#[test]
fn human_readable_pb_and_eb() {
    assert_eq!(human_readable_size(1u64 << 50), "1.00 PB");
    assert_eq!(human_readable_size(1u64 << 60), "1.00 EB");
}

#[test]
fn human_readable_zero() {
    assert_eq!(human_readable_size(0), "0.00 B");
}

#[test]
fn human_readable_bytes_are_exact() {
    assert_eq!(human_readable_size(9), "9.00 B");
    assert_eq!(human_readable_size(10), "10.00 B");
    assert_eq!(human_readable_size(512), "512.00 B");
    assert_eq!(human_readable_size(1023), "1023.00 B");
}

#[test]
fn human_readable_fractions() {
    assert_eq!(human_readable_size(1536), "1.50 KB");
    assert_eq!(human_readable_size(1126), "1.10 KB");
    assert_eq!(human_readable_size(1034), "1.01 KB");
    assert_eq!(human_readable_size(5 * 1024 * 1024 + 256 * 1024), "5.25 MB");
}

#[test]
fn human_readable_rounds_to_nearest() {
    // 1163 / 1024 = 1.1357..., 1157 / 1024 = 1.1298...
    assert_eq!(human_readable_size(1163), "1.14 KB");
    assert_eq!(human_readable_size(1157), "1.13 KB");
    // 1025 / 1024 = 1.00097...
    assert_eq!(human_readable_size(1025), "1.00 KB");
}

#[test]
fn human_readable_midway_goes_to_even() {
    // 1152 / 1024 = 1.125 and 1408 / 1024 = 1.375, both exactly midway.
    assert_eq!(human_readable_size(1152), "1.12 KB");
    assert_eq!(human_readable_size(1408), "1.38 KB");
}

#[test]
fn human_readable_just_below_a_unit() {
    // The unit is chosen before rounding: one byte short of a MB is still KB.
    assert_eq!(human_readable_size(1024 * 1024 - 1), "1024.00 KB");
    assert_eq!(human_readable_size((1u64 << 60) - 1), "1024.00 PB");
}

#[test]
fn human_readable_largest_size() {
    assert_eq!(human_readable_size(u64::MAX), "16.00 EB");
}

#[test]
fn unit_of_counts_divisions_by_1024() {
    assert_eq!(unit_of(0), 0);
    assert_eq!(unit_of(1023), 0);
    assert_eq!(unit_of(1024), 1);
    assert_eq!(unit_of(1024 * 1024 - 1), 1);
    assert_eq!(unit_of(1024 * 1024), 2);
    assert_eq!(unit_of(u64::MAX), 6);
}
