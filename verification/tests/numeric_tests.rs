use txledger::numeric::{bytes_eq, format_amount, parse_amount, to_lower, u64_to_dec};

#[test]
fn parse_whole_and_fractional() {
    assert_eq!(parse_amount(&b"1.5".to_vec()), Some(15_000));
    assert_eq!(parse_amount(&b"100.0".to_vec()), Some(1_000_000));
    assert_eq!(parse_amount(&b"2".to_vec()), Some(20_000));
    assert_eq!(parse_amount(&b"0.0001".to_vec()), Some(1));
    assert_eq!(parse_amount(&b"12.3456".to_vec()), Some(123_456));
}

#[test]
fn parse_negative() {
    assert_eq!(parse_amount(&b"-1.5".to_vec()), Some(-15_000));
    assert_eq!(parse_amount(&b"-0.0001".to_vec()), Some(-1));
}

#[test]
fn parse_rejects_malformed() {
    assert_eq!(parse_amount(&b"".to_vec()), None);
    assert_eq!(parse_amount(&b"-".to_vec()), None);
    assert_eq!(parse_amount(&b".5".to_vec()), None);
    assert_eq!(parse_amount(&b"1.".to_vec()), None);
    assert_eq!(parse_amount(&b"1.23456".to_vec()), None);
    assert_eq!(parse_amount(&b"1.2.3".to_vec()), None);
    assert_eq!(parse_amount(&b"12a".to_vec()), None);
    assert_eq!(parse_amount(&b"99999999999999999999999999.0".to_vec()), None);
}

#[test]
fn format_four_fractional_digits() {
    assert_eq!(format_amount(15_000), b"1.5000".to_vec());
    assert_eq!(format_amount(0), b"0.0000".to_vec());
    assert_eq!(format_amount(1), b"0.0001".to_vec());
    assert_eq!(format_amount(-15_000), b"-1.5000".to_vec());
    assert_eq!(format_amount(1_000_000), b"100.0000".to_vec());
}

#[test]
fn parse_format_round_trip() {
    for a in [0i64, 1, -1, 15_000, -15_000, 1_234_567, 10_000] {
        let text = format_amount(a);
        assert_eq!(parse_amount(&text), Some(a));
    }
}

#[test]
fn digit_run_of_u64() {
    assert_eq!(u64_to_dec(0), b"0".to_vec());
    assert_eq!(u64_to_dec(907), b"907".to_vec());
}

#[test]
fn lower_and_equality() {
    assert_eq!(to_lower(&b"DePoSit".to_vec()), b"deposit".to_vec());
    assert!(bytes_eq(&b"abc".to_vec(), &b"abc".to_vec()));
    assert!(!bytes_eq(&b"abc".to_vec(), &b"abd".to_vec()));
}
