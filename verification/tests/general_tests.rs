use ooxml_numfmt::formatter::general::{general_scientific_text, trim_decimal_zeros};

#[test]
fn general_scientific_trims_the_mantissa_and_pads_the_exponent() {
    assert_eq!(general_scientific_text("1.23450E-5"), "1.2345E-05");
    assert_eq!(general_scientific_text("1.00000E12"), "1E+12");
    assert_eq!(general_scientific_text("-5.00000E0"), "-5E+00");
    assert_eq!(general_scientific_text("9.99990E-123"), "9.9999E-123");
    assert_eq!(general_scientific_text("12.5"), "12.5");
    assert_eq!(general_scientific_text("1.0E"), "1E+00");
}

#[test]
fn decimal_text_loses_trailing_zeros() {
    assert_eq!(trim_decimal_zeros("42.500"), "42.5");
    assert_eq!(trim_decimal_zeros("42.000"), "42");
    assert_eq!(trim_decimal_zeros("4200"), "4200");
    assert_eq!(trim_decimal_zeros("-0.010"), "-0.01");
}
