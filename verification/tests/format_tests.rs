use servedir::humanize::format_byte_size;

#[test]
fn small_sizes_render_plain() {
    assert_eq!(format_byte_size(0), "0 B");
    assert_eq!(format_byte_size(1), "1 B");
    assert_eq!(format_byte_size(42), "42 B");
    assert_eq!(format_byte_size(999), "999 B");
}

#[test]
fn kilobyte_boundary() {
    assert_eq!(format_byte_size(1000), "1.00 kB");
    assert_eq!(format_byte_size(1500), "1.50 kB");
    assert_eq!(format_byte_size(2500), "2.50 kB");
}

#[test]
fn promotion_threshold() {
    assert_eq!(format_byte_size(999949), "999.95 kB");
    assert_eq!(format_byte_size(999950), "1.00 MB");
}

#[test]
fn rounding_is_half_up() {
    assert_eq!(format_byte_size(1004), "1.00 kB");
    assert_eq!(format_byte_size(1005), "1.01 kB");
}

#[test]
fn larger_units() {
    assert_eq!(format_byte_size(2_500_000), "2.50 MB");
    assert_eq!(format_byte_size(2_500_000_000), "2.50 GB");
    assert_eq!(format_byte_size(2_500_000_000_000), "2.50 TB");
    assert_eq!(format_byte_size(2_500_000_000_000_000), "2.50 PB");
    assert_eq!(format_byte_size(2_500_000_000_000_000_000), "2.50 EB");
    assert_eq!(format_byte_size(u64::MAX), "18.45 EB");
}
