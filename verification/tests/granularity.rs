use asciiview::config::validate_granularity;

#[test]
fn validator_rejects_out_of_range_and_non_numbers() {
    assert_eq!(
        validate_granularity("1.5"),
        Err("Granularity must be in 0..1".to_string())
    );
    assert_eq!(
        validate_granularity("-0.1"),
        Err("Granularity must be in 0..1".to_string())
    );
    assert_eq!(validate_granularity("abc"), Err("Must be a number".to_string()));
}

#[test]
fn validator_accepts_the_unit_interval() {
    assert_eq!(validate_granularity("0").unwrap().thousandths, 0);
    assert_eq!(validate_granularity("0.5").unwrap().thousandths, 500);
    assert_eq!(validate_granularity("1").unwrap().thousandths, 1000);
}

#[test]
fn validator_reads_decimal_forms() {
    assert_eq!(validate_granularity("0.25").unwrap().thousandths, 250);
    assert_eq!(validate_granularity("+0.75").unwrap().thousandths, 750);
    assert_eq!(validate_granularity("1.000").unwrap().thousandths, 1000);
    assert_eq!(validate_granularity("0.").unwrap().thousandths, 0);
    assert_eq!(validate_granularity(".5").unwrap().thousandths, 500);
    assert_eq!(validate_granularity("-0").unwrap().thousandths, 0);
    assert_eq!(validate_granularity("-0.000").unwrap().thousandths, 0);
    // Digits past the third fraction place are ignored.
    assert_eq!(validate_granularity("0.9999").unwrap().thousandths, 999);
}

#[test]
fn validator_rejects_malformed_numbers() {
    assert_eq!(validate_granularity(""), Err("Must be a number".to_string()));
    assert_eq!(validate_granularity("."), Err("Must be a number".to_string()));
    assert_eq!(validate_granularity("+"), Err("Must be a number".to_string()));
    assert_eq!(validate_granularity("1.2.3"), Err("Must be a number".to_string()));
    assert_eq!(validate_granularity("0x1"), Err("Must be a number".to_string()));
    assert_eq!(validate_granularity("1,5"), Err("Must be a number".to_string()));
}

#[test]
fn validator_rejects_values_just_above_one() {
    assert_eq!(
        validate_granularity("1.0001"),
        Err("Granularity must be in 0..1".to_string())
    );
    assert_eq!(
        validate_granularity("2"),
        Err("Granularity must be in 0..1".to_string())
    );
    assert_eq!(
        validate_granularity("-0.0001"),
        Err("Granularity must be in 0..1".to_string())
    );
}
