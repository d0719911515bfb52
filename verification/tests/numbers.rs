//! The literal scanner, exact decimals and fixed-point formatting.
use msi_model::extract::get_attribute_type;
use msi_model::extract::parse_cry_display;
use msi_model::format::format_fixed;
use msi_model::numeric::parse_decimal;
use msi_model::scanner;

#[test]
fn test_float() {
    let number = b"-2.865153883599e-05";
    let number_2 = b"-2.";
    let parse_float = scanner::float(number, 0);
    assert_eq!(parse_float, Some(number.len()));
    let parse_float_2 = scanner::float(number_2, 0);
    assert_eq!(parse_float_2, Some(number_2.len()));
}

#[test]
fn float_forms() {
    // A fraction without an integer part.
    assert_eq!(scanner::float(b".42", 0), Some(3));
    // Exponent forms.
    assert_eq!(scanner::float(b"42e42", 0), Some(5));
    assert_eq!(scanner::float(b"42.42e42", 0), Some(8));
    // Dot forms with signs.
    assert_eq!(scanner::float(b"+42.", 0), Some(4));
    assert_eq!(scanner::float(b"42.42", 0), Some(5));
    assert_eq!(scanner::float(b"-42.e-05", 0), Some(8));
    // A bare integer is not a float; the combined literal scan uses the
    // integer scanner as its fallback.
    assert_eq!(scanner::float(b"42", 0), None);
    assert_eq!(scanner::decimal(b"42", 0), Some(2));
    // No literal at all.
    assert_eq!(scanner::float(b"abc", 0), None);
    assert_eq!(scanner::decimal(b"abc", 0), None);
}

#[test]
fn float_stops_at_span_end() {
    // The scanner consumes only the literal span.
    assert_eq!(scanner::float(b"1.5 2.5", 0), Some(3));
    assert_eq!(scanner::float(b"1.5 2.5", 4), Some(7));
}

#[test]
fn parse_decimal_values() {
    let d = parse_decimal(b"0.05").unwrap();
    assert!(!d.neg);
    assert_eq!(d.digits, vec![0, 0, 5]);
    assert_eq!(d.exp, -2);
    let d = parse_decimal(b"-2.865153883599e-05").unwrap();
    assert!(d.neg);
    assert_eq!(d.digits, vec![2, 8, 6, 5, 1, 5, 3, 8, 8, 3, 5, 9, 9]);
    assert_eq!(d.exp, -17);
    let d = parse_decimal(b"42.").unwrap();
    assert_eq!(d.digits, vec![4, 2]);
    assert_eq!(d.exp, 0);
    let d = parse_decimal(b"1e3").unwrap();
    assert_eq!(d.digits, vec![1]);
    assert_eq!(d.exp, 3);
    // A dangling exponent marker is not a well-formed literal.
    assert!(parse_decimal(b"42.e").is_none());
    assert!(parse_decimal(b"").is_none());
}

#[test]
fn format_fixed_values() {
    let d = parse_decimal(b"0.05").unwrap();
    assert_eq!(format_fixed(&d, 12), b"0.050000000000".to_vec());
    let d = parse_decimal(b"5.").unwrap();
    assert_eq!(format_fixed(&d, 12), b"5.000000000000".to_vec());
    let d = parse_decimal(b"-3.25").unwrap();
    assert_eq!(format_fixed(&d, 12), b"-3.250000000000".to_vec());
    let d = parse_decimal(b"1.5e2").unwrap();
    assert_eq!(format_fixed(&d, 2), b"150.00".to_vec());
}

#[test]
fn format_fixed_rounds_ties_away_from_zero() {
    // One digit below the last printed place, exactly half: rounds up.
    let d = parse_decimal(b"0.0000000000005").unwrap();
    assert_eq!(format_fixed(&d, 12), b"0.000000000001".to_vec());
    // Below half: rounds down.
    let d = parse_decimal(b"0.0000000000004").unwrap();
    assert_eq!(format_fixed(&d, 12), b"0.000000000000".to_vec());
    // The sign survives even when the magnitude rounds to zero.
    let d = parse_decimal(b"-0.0000000000004").unwrap();
    assert_eq!(format_fixed(&d, 12), b"-0.000000000000".to_vec());
    // Carry across all digits.
    let d = parse_decimal(b"9.9999999999995").unwrap();
    assert_eq!(format_fixed(&d, 12), b"10.000000000000".to_vec());
}

#[test]
fn decimal_zero_and_sign_tests() {
    let z = parse_decimal(b"0.000").unwrap();
    assert!(z.check_zero());
    let p = parse_decimal(b"0.001").unwrap();
    assert!(!p.check_zero());
    assert!(!p.neg);
}

#[test]
fn cry_display_extraction() {
    let r = parse_cry_display(b"I CRY/DISPLAY (192 256)").unwrap().unwrap();
    assert_eq!(r.first, 192);
    assert_eq!(r.second, 256);
    assert!(parse_cry_display(b"I PeriodicType 100").unwrap().is_none());
}

#[test]
fn attribute_key_extraction() {
    let content = b"D CRY/TOLERANCE 0.05";
    let (k0, k1) = get_attribute_type(content).unwrap();
    assert_eq!(&content[k0..k1], b"CRY/TOLERANCE");
    assert!(get_attribute_type(b"D ").is_none());
}
