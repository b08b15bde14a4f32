use ooxml_numfmt::formatter::bigint::{evaluate_bigint, MAX_SAFE_INTEGER, MIN_SAFE_INTEGER};
use ooxml_numfmt::{fallback_format_bigint, is_safe_integer, FormatOptions, LargeInt, NumberFormat};

#[test]
fn test_is_safe_integer() {
    assert!(is_safe_integer(&LargeInt::from_i64(0)));
    assert!(is_safe_integer(&LargeInt::from_i64(1000)));
    assert!(is_safe_integer(&LargeInt::from_i64(-1000)));
    assert!(is_safe_integer(&LargeInt::from_i64(MAX_SAFE_INTEGER)));
    assert!(is_safe_integer(&LargeInt::from_i64(MIN_SAFE_INTEGER)));

    // Just outside safe range
    let above_max = LargeInt::from_i64(MAX_SAFE_INTEGER + 1);
    let below_min = LargeInt::from_i64(MIN_SAFE_INTEGER - 1);
    assert!(!is_safe_integer(&above_max));
    assert!(!is_safe_integer(&below_min));

    // Large values
    assert!(!is_safe_integer(
        &LargeInt::parse("123456822333333000").unwrap()
    ));
}

#[test]
fn test_fallback_format_bigint() {
    let big = LargeInt::parse("123456822333333000").unwrap();
    assert_eq!(fallback_format_bigint(&big), "123456822333333000");
}

#[test]
fn evaluates_large_values_with_the_compiled_number_spec() {
    let value = LargeInt::parse("123456789012345678").unwrap();
    let format = NumberFormat::parse("$#,##0.00").unwrap();

    assert_eq!(
        format
            .try_format_large_integer(&value, &FormatOptions::default())
            .unwrap(),
        "$123,456,789,012,345,678.00"
    );
}

#[test]
fn preserves_fill_inside_large_integer_placeholders() {
    let value = LargeInt::parse("123456789012345678").unwrap();
    let format = NumberFormat::parse("0*x0").unwrap();
    let options = FormatOptions {
        fill_count: 3,
        ..FormatOptions::default()
    };

    assert_eq!(
        evaluate_bigint(&value, &format.sections()[0], &options).unwrap(),
        "12345678901234567xxx8"
    );
}

#[test]
fn applies_bigint_percentage_and_scaling_exactly() {
    let value = LargeInt::parse("123456789012345678").unwrap();
    let percent = NumberFormat::parse("0%").unwrap();
    let scaled = NumberFormat::parse("0,,").unwrap();

    assert_eq!(
        percent
            .try_format_large_integer(&value, &FormatOptions::default())
            .unwrap(),
        "12345678901234567800%"
    );
    assert_eq!(
        scaled
            .try_format_large_integer(&value, &FormatOptions::default())
            .unwrap(),
        "123456789012"
    );
}

#[test]
fn test_fill_bigint() {
    let value = LargeInt::parse("123456789012345678").unwrap();
    let options = FormatOptions {
        fill_count: 3,
        ..FormatOptions::default()
    };
    let format = NumberFormat::parse("0*x0").unwrap();

    assert_eq!(
        format.try_format_large_integer(&value, &options).unwrap(),
        "12345678901234567xxx8"
    );

    let grouped = NumberFormat::parse("#*x,##0").unwrap();
    assert_eq!(
        grouped.try_format_large_integer(&value, &options).unwrap(),
        "123,456,789,012,345xxx,678"
    );
}
