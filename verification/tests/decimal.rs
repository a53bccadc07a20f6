use block_model::decimal::Decimal;

fn d(s: &str) -> Decimal {
    Decimal::parse(s).unwrap()
}

#[test]
fn text_comes_out_as_it_came_in() {
    for s in ["0", "0.0024", "25.35190000", "-1.50", "111999.9", "10", "0.00"] {
        assert_eq!(d(s).text(), s);
    }
}

#[test]
fn zeros_in_front_are_dropped_but_not_behind() {
    assert_eq!(d("007.10").text(), "7.10");
    assert_eq!(d("-0").text(), "0");
}

#[test]
fn parts_are_the_digits_and_the_scale() {
    assert_eq!(d("25.350").mantissa(), 25350);
    assert_eq!(d("25.350").scale(), 3);
    assert_eq!(d("-0.5").mantissa(), -5);
    assert_eq!(d("1e3").text(), "1000");
}

#[test]
fn equality_is_of_numbers() {
    assert_eq!(d("1.10"), d("1.1"));
    assert_ne!(d("1.10"), d("1.101"));
    assert_eq!(d("0.000"), Decimal::zero());
    assert!(d("0.00").is_zero());
    assert!(!d("0.01").is_zero());
}

#[test]
fn what_is_no_number_is_refused() {
    for s in ["", "-", "abc", "1.2.3", "1,5", "NaN"] {
        assert!(Decimal::parse(s).is_none(), "{s}");
    }
    assert!(Decimal::parse("79228162514264337593543950336").is_none());
}

#[test]
fn largest_number_fits_and_no_larger() {
    let max = 79_228_162_514_264_337_593_543_950_335i128;
    assert_eq!(Decimal::from_parts(max, 0).unwrap().text(), "79228162514264337593543950335");
    assert_eq!(Decimal::from_parts(-max, 28).unwrap().text(), "-7.9228162514264337593543950335");
    assert!(Decimal::from_parts(max + 1, 0).is_none());
    assert!(Decimal::from_parts(-max - 1, 0).is_none());
    assert!(Decimal::from_parts(1, 29).is_none());
}

#[test]
fn two_is_two() {
    assert_eq!(Decimal::two(), d("2"));
    assert_eq!(Decimal::two().text(), "2");
}

#[test]
fn longest_texts_are_read_digit_by_digit() {
    for s in [
        "79228162514264337593543950335",
        "-79228162514264337593543950335",
        "7.9228162514264337593543950335",
        "0.0000000000000000000000000001",
        "1844674407370955161.6000000000",
    ] {
        assert_eq!(d(s).text(), s);
    }
}

#[test]
fn zero_keeps_the_minus_that_rounding_left() {
    let tiny = d("-0.1e-28");
    assert_eq!(tiny.text(), "-0.0000000000000000000000000000");
    assert!(tiny.is_zero() && tiny.is_sign_negative());
    assert_eq!((tiny.mantissa(), tiny.scale()), (0, 28));
    assert_eq!(tiny, Decimal::zero());
    // As digits, a zero has no minus.
    assert_eq!(d(&tiny.text()).text(), "0.0000000000000000000000000000");
    assert!(!d("-0.00").is_sign_negative());
    assert_eq!(d("0.1e-28").text(), "0.0000000000000000000000000000");
    assert!(d("-1").is_sign_negative() && !d("1").is_sign_negative());
    assert_eq!(d("-0.5e-28").text(), "-0.0000000000000000000000000001");
}
