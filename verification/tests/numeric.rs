use tusk::numeric::{numeric_from_sql, numeric_to_string, NumericError};

fn be16(v: i32) -> [u8; 2] {
    let u = (v & 0xffff) as u16;
    u.to_be_bytes()
}

fn raw(ndigits: i32, weight: i32, sign: u16, dscale: i32, digits: &[u16]) -> Vec<u8> {
    let mut out = Vec::new();
    out.extend_from_slice(&be16(ndigits));
    out.extend_from_slice(&be16(weight));
    out.extend_from_slice(&sign.to_be_bytes());
    out.extend_from_slice(&be16(dscale));
    for d in digits {
        out.extend_from_slice(&d.to_be_bytes());
    }
    out
}

fn text(bytes: &[u8]) -> String {
    numeric_to_string(bytes).expect("a numeric value")
}

#[test]
fn numeric_zero() {
    assert_eq!(text(&raw(0, 0, 0, 0, &[])), "0");
}

#[test]
fn numeric_integer_and_fraction_cut_to_scale() {
    assert_eq!(text(&raw(3, 1, 0, 3, &[1, 2345, 6780])), "12345.678");
}

#[test]
fn numeric_negative() {
    assert_eq!(text(&raw(3, 1, 0x4000, 3, &[1, 2345, 6780])), "-12345.678");
}

#[test]
fn numeric_small_fraction() {
    assert_eq!(text(&raw(1, -1, 0, 4, &[12])), "0.0012");
}

#[test]
fn numeric_missing_fraction_groups_are_zero() {
    assert_eq!(text(&raw(1, -2, 0, 8, &[5])), "0.00000005");
}

#[test]
fn numeric_missing_integer_groups_are_zero() {
    assert_eq!(text(&raw(1, 2, 0, 0, &[7])), "700000000");
}

#[test]
fn numeric_scale_pads_with_zeros() {
    assert_eq!(text(&raw(1, 0, 0, 2, &[5])), "5.00");
}

#[test]
fn numeric_leading_zero_groups_are_trimmed() {
    assert_eq!(text(&raw(2, 1, 0, 0, &[0, 5])), "5");
}

#[test]
fn numeric_negative_zero() {
    assert_eq!(text(&raw(0, 0, 0x4000, 0, &[])), "0");
    assert_eq!(text(&raw(0, 0, 0x4000, 2, &[])), "-0.00");
}

#[test]
fn numeric_nan() {
    assert_eq!(text(&raw(0, 0, 0xC000, 0, &[])), "NaN");
    // NaN is recognised before the digit count is checked.
    assert_eq!(text(&raw(5, 0, 0xC000, 0, &[])), "NaN");
}

#[test]
fn numeric_too_short() {
    assert_eq!(numeric_to_string(&[0u8; 7]), Err(NumericError::TooShort));
    assert_eq!(numeric_to_string(&[]), Err(NumericError::TooShort));
    assert_eq!(NumericError::TooShort.message(), "numeric 数据过短");
}

#[test]
fn numeric_length_mismatch() {
    let mut r = raw(2, 0, 0, 0, &[1]);
    assert_eq!(numeric_to_string(&r), Err(NumericError::LengthMismatch));
    r = raw(-1, 0, 0, 0, &[]);
    assert_eq!(numeric_to_string(&r), Err(NumericError::LengthMismatch));
    assert_eq!(NumericError::LengthMismatch.message(), "numeric 数据长度不符");
}

#[test]
fn numeric_oversized_groups_are_printed_as_they_are() {
    assert_eq!(text(&raw(2, 1, 0, 0, &[12345, 10000])), "1234510000");
}

#[test]
fn numeric_value_law_example() {
    // 1.2345 with two decimal places is cut, not rounded, to 1.23.
    assert_eq!(text(&raw(2, 0, 0, 2, &[1, 2345])), "1.23");
    // 98.7654 with six decimal places is padded.
    assert_eq!(text(&raw(2, 0, 0, 6, &[98, 7654])), "98.765400");
}

#[test]
fn numeric_large_weight() {
    let expected = format!("1{}", "0".repeat(4 * 10));
    assert_eq!(text(&raw(1, 10, 0, 0, &[1])), expected);
}

#[test]
fn numeric_column_reading() {
    let ok = numeric_from_sql(true, "numeric", &raw(1, 0, 0, 1, &[42])).expect("decoded");
    assert_eq!(ok.0, "42.0");
    assert_eq!(numeric_from_sql(false, "int4", &raw(1, 0, 0, 0, &[42])).err().unwrap(), "类型不是 numeric: int4");
    assert_eq!(numeric_from_sql(true, "numeric", &[1, 2]).err().unwrap(), "numeric 数据过短");
}
