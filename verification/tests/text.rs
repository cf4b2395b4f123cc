use html_bench::text::{i64_string, ratio_percent_string, u64_string, usize_string};

#[test]
fn decimal_rendering() {
    assert_eq!(u64_string(0), "0");
    assert_eq!(u64_string(7), "7");
    assert_eq!(u64_string(75), "75");
    assert_eq!(u64_string(1024), "1024");
    assert_eq!(u64_string(u64::MAX), "18446744073709551615");
    assert_eq!(usize_string(45), "45");
}

#[test]
fn signed_decimal_rendering() {
    assert_eq!(i64_string(0), "0");
    assert_eq!(i64_string(12), "12");
    assert_eq!(i64_string(-3), "-3");
    assert_eq!(i64_string(i64::MIN), "-9223372036854775808");
    assert_eq!(i64_string(i64::MAX), "9223372036854775807");
}

#[test]
fn percent_rendering_rounds_to_nearest_hundredth() {
    // 34 / 45 = 75.555...%; rounds up to 75.56%.
    assert_eq!(ratio_percent_string(34, 45), "75.56%");
    // 11 / 45 = 24.444...%; rounds down to 24.44%.
    assert_eq!(ratio_percent_string(11, 45), "24.44%");
    assert_eq!(ratio_percent_string(45, 45), "100.00%");
    assert_eq!(ratio_percent_string(0, 45), "0.00%");
    // 1 / 8 = 12.5%; the exact half rounds up.
    assert_eq!(ratio_percent_string(1, 8), "12.50%");
    assert_eq!(ratio_percent_string(1, 800), "0.13%");
    assert_eq!(ratio_percent_string(-1, 800), "-0.13%");
    assert_eq!(ratio_percent_string(-12345, 10000), "-123.45%");
}

#[test]
fn expanding_output_gives_negative_reduction() {
    // Document of 10 bytes, output of 25 bytes: reduction is -150.00%.
    assert_eq!(ratio_percent_string(10 - 25, 10), "-150.00%");
}

#[test]
fn negative_ratio_keeps_its_sign_when_magnitude_rounds_to_zero() {
    // -1 / 20001 is under half a hundredth of a percent in magnitude; the
    // sign comes from the exact ratio, not the rounded value.
    assert_eq!(ratio_percent_string(-1, 20001), "-0.00%");
    assert_eq!(ratio_percent_string(1, 20001), "0.00%");
}
