use cpu_miner_sv2::format::format_number_with_underscores;

#[test]
fn formats_numbers_with_underscores() {
    assert_eq!(format_number_with_underscores(0), "0");
    assert_eq!(format_number_with_underscores(7), "7");
    assert_eq!(format_number_with_underscores(999), "999");
    assert_eq!(format_number_with_underscores(1000), "1_000");
    assert_eq!(format_number_with_underscores(12345), "12_345");
    assert_eq!(format_number_with_underscores(123456), "123_456");
    assert_eq!(format_number_with_underscores(1000000), "1_000_000");
}

#[test]
fn formats_the_largest_u64() {
    assert_eq!(
        format_number_with_underscores(u64::MAX),
        "18_446_744_073_709_551_615"
    );
}

#[test]
fn removing_underscores_gives_the_digits_back() {
    for n in [0u64, 5, 10, 100, 1_000, 65_536, 4_294_967_296, 999_999_999_999] {
        let formatted = format_number_with_underscores(n);
        assert_eq!(formatted.replace('_', ""), n.to_string());
        let digits = n.to_string().len();
        assert_eq!(formatted.len(), digits + (digits - 1) / 3);
    }
}
