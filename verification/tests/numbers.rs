use ratio_report::decimal::{Decimal, Difference, DECIMAL_LIMIT, UNITS_PER_ONE};
use ratio_report::format::{
    format_grouped_integer, format_percent_with_delta, format_signed_delta, format_signed_grouped,
};
use ratio_report::parse::{parse_decimal, parse_percent};

fn change(text: &str) -> Difference {
    parse_decimal(text).minus(&Decimal::zero())
}

#[test]
fn parse_reads_plain_decimals() {
    assert_eq!(parse_decimal("88637.56900000").units(), 8_863_756_900_000);
    assert_eq!(parse_decimal("8688981341.44580000").units(), 868_898_134_144_580_000);
    assert_eq!(parse_decimal("0.5321").units(), 53_210_000);
    assert_eq!(parse_decimal("0").units(), 0);
    assert_eq!(parse_decimal("1").units(), UNITS_PER_ONE);
    assert_eq!(parse_decimal("007").units(), 700_000_000);
}

#[test]
fn parse_takes_signs_and_bare_points() {
    assert_eq!(parse_decimal("-1.5").units(), -150_000_000);
    assert_eq!(parse_decimal("+1.5").units(), 150_000_000);
    assert_eq!(parse_decimal(".5").units(), 50_000_000);
    assert_eq!(parse_decimal("5.").units(), 500_000_000);
    assert_eq!(parse_decimal("-.25").units(), -25_000_000);
    assert_eq!(parse_decimal("-0").units(), 0);
}

#[test]
fn parse_drops_digits_past_the_eighth_place() {
    assert_eq!(parse_decimal("0.123456789").units(), 12_345_678);
    assert_eq!(parse_decimal("0.999999999999").units(), 99_999_999);
    assert_eq!(parse_decimal("-2.000000009").units(), -200_000_000);
}

#[test]
fn parse_falls_back_to_zero() {
    for text in [
        "", "abc", "not a number", ".", "+", "-", "+-1", "1.2.3", "1,5", " 1", "1 ", "inf",
        "NaN", "0x10", "１２", "12a", "--1", "1..", "٣", "e", "e5", ".e5", "+e5", "1e", "1e+",
        "1e-", "1e5.0", "1e5e5", "1ee5", "1e 5", "1 e5", "1e--5", "1e+-5", "1e５", "0x1e5", "1.e",
    ] {
        assert_eq!(parse_decimal(text).units(), 0, "{:?}", text);
        assert_eq!(parse_percent(text).units(), 0, "{:?}", text);
    }
}

#[test]
fn parse_reads_exponents() {
    assert_eq!(parse_decimal("1e5").units(), 100_000 * UNITS_PER_ONE);
    assert_eq!(parse_decimal("1E5").units(), 100_000 * UNITS_PER_ONE);
    assert_eq!(parse_decimal("1e+5").units(), 100_000 * UNITS_PER_ONE);
    assert_eq!(parse_decimal("1e05").units(), 100_000 * UNITS_PER_ONE);
    assert_eq!(parse_decimal("1e0").units(), UNITS_PER_ONE);
    assert_eq!(parse_decimal("5e-1").units(), 50_000_000);
    assert_eq!(parse_decimal("1.5e3").units(), 1_500 * UNITS_PER_ONE);
    assert_eq!(parse_decimal("-2.5e-3").units(), -250_000);
    assert_eq!(parse_decimal("+2.5E-3").units(), 250_000);
    assert_eq!(parse_decimal(".5e1").units(), 5 * UNITS_PER_ONE);
    assert_eq!(parse_decimal("5.e1").units(), 50 * UNITS_PER_ONE);
    assert_eq!(parse_decimal("8.68898134144580000e9").units(), 868_898_134_144_580_000);
    assert_eq!(parse_decimal("0.000000001e9").units(), UNITS_PER_ONE);
    assert_eq!(parse_decimal("12345.678e-2").units(), 12_345_678_000);
}

#[test]
fn parse_drops_what_exponents_push_past_the_eighth_place() {
    assert_eq!(parse_decimal("1e-8").units(), 1);
    assert_eq!(parse_decimal("1e-9").units(), 0);
    assert_eq!(parse_decimal("19e-9").units(), 1);
    assert_eq!(parse_decimal("-19e-9").units(), -1);
    assert_eq!(parse_decimal("123456789e-10").units(), 1_234_567);
    assert_eq!(parse_decimal("9.99999999999e-1").units(), 99_999_999);
    assert_eq!(parse_decimal("123456789012345678901234567890123456789012345e-40").units(), 1_234_567_890_123);
    assert_eq!(parse_decimal("1e-99999999999999999999999999").units(), 0);
    assert_eq!(parse_decimal("7e-18446744073709551616").units(), 0);
}

#[test]
fn parse_reads_exponents_up_to_the_limit() {
    assert_eq!(parse_decimal("1e22").units(), DECIMAL_LIMIT);
    assert_eq!(parse_decimal("-1e22").units(), -DECIMAL_LIMIT);
    assert_eq!(parse_decimal("0.0001e26").units(), DECIMAL_LIMIT);
    assert_eq!(parse_decimal("1e23").units(), 0);
    assert_eq!(parse_decimal("1.00000000000000000000000000001e22").units(), 0);
    assert_eq!(parse_decimal("1e99999999999999999999999999").units(), 0);
    assert_eq!(parse_decimal("3e18446744073709551616").units(), 0);
    assert_eq!(parse_decimal("0e99999999999999999999999999").units(), 0);
    assert_eq!(parse_decimal("0.000e5000").units(), 0);
    assert_eq!(parse_decimal("0.001e25").units(), DECIMAL_LIMIT);
}

#[test]
fn parse_percent_reads_exponents() {
    assert_eq!(parse_percent("5e-1").units(), 50 * UNITS_PER_ONE);
    assert_eq!(parse_percent("5.321E-1").units(), 5_321_000_000);
    assert_eq!(parse_percent("1e20").units(), DECIMAL_LIMIT);
    assert_eq!(parse_percent("1e21").units(), 0);
    assert_eq!(parse_percent("1e-10").units(), 0);
    assert_eq!(parse_percent("-1e-8").units(), -100);
}

#[test]
fn parse_reads_up_to_the_limit() {
    assert_eq!(parse_decimal("10000000000000000000000").units(), DECIMAL_LIMIT);
    assert_eq!(parse_decimal("-10000000000000000000000").units(), -DECIMAL_LIMIT);
    assert_eq!(parse_decimal("10000000000000000000000.00000001").units(), 0);
    assert_eq!(parse_decimal("10000000000000000000001").units(), 0);
    assert_eq!(
        parse_decimal("99999999999999999999999999999999999999999999999999999999").units(),
        0
    );
    assert_eq!(parse_decimal("00000000000000000000000000000000000000000000012").units(), 1_200_000_000);
}

#[test]
fn parse_percent_scales_by_a_hundred() {
    assert_eq!(parse_percent("0.5321").units(), 5_321_000_000);
    assert_eq!(parse_percent("0.4679").units(), 4_679_000_000);
    assert_eq!(parse_percent("1").units(), 100 * UNITS_PER_ONE);
    assert_eq!(parse_percent("-0.01").units(), -UNITS_PER_ONE);
    assert_eq!(parse_percent("100000000000000000000").units(), DECIMAL_LIMIT);
    assert_eq!(parse_percent("100000000000000000000.00000001").units(), 0);
    assert_eq!(parse_percent("10000000000000000000000").units(), 0);
}

#[test]
fn decimal_from_units_keeps_to_the_limit() {
    assert_eq!(Decimal::from_units(0).map(|d| d.units()), Some(0));
    assert_eq!(Decimal::from_units(DECIMAL_LIMIT).map(|d| d.units()), Some(DECIMAL_LIMIT));
    assert_eq!(Decimal::from_units(-DECIMAL_LIMIT).map(|d| d.units()), Some(-DECIMAL_LIMIT));
    assert!(Decimal::from_units(DECIMAL_LIMIT + 1).is_none());
    assert!(Decimal::from_units(-DECIMAL_LIMIT - 1).is_none());
    assert!(Decimal::from_units(i128::MAX).is_none());
    assert!(Decimal::from_units(i128::MIN).is_none());
    assert_eq!(Decimal::zero().units(), 0);
}

#[test]
fn minus_is_exact_at_the_limits() {
    let top = Decimal::from_units(DECIMAL_LIMIT).unwrap();
    let bottom = Decimal::from_units(-DECIMAL_LIMIT).unwrap();
    assert_eq!(top.minus(&bottom).units(), 2 * DECIMAL_LIMIT);
    assert_eq!(bottom.minus(&top).units(), -2 * DECIMAL_LIMIT);
    assert_eq!(top.minus(&top).units(), 0);
    assert_eq!(Difference::from_units(-7).units(), -7);
}

#[test]
fn grouped_integer_of_notional_value() {
    assert_eq!(format_grouped_integer(parse_decimal("8688981341.4458")), "8,688,981,341");
}

#[test]
fn grouped_integer_rounds_to_nearest() {
    assert_eq!(format_grouped_integer(parse_decimal("88637.569")), "88,638");
    assert_eq!(format_grouped_integer(parse_decimal("0")), "0");
    assert_eq!(format_grouped_integer(parse_decimal("0.49999999")), "0");
    assert_eq!(format_grouped_integer(parse_decimal("0.5")), "1");
    assert_eq!(format_grouped_integer(parse_decimal("999.5")), "1,000");
    assert_eq!(format_grouped_integer(parse_decimal("999.49999999")), "999");
    assert_eq!(format_grouped_integer(parse_decimal("1234567")), "1,234,567");
    assert_eq!(format_grouped_integer(parse_decimal("100")), "100");
    assert_eq!(format_grouped_integer(parse_decimal("1000")), "1,000");
    assert_eq!(format_grouped_integer(parse_decimal("1000000")), "1,000,000");
    assert_eq!(
        format_grouped_integer(parse_decimal("10000000000000000000000")),
        "10,000,000,000,000,000,000,000"
    );
}

#[test]
fn grouped_integer_below_zero() {
    assert_eq!(format_grouped_integer(parse_decimal("-1234.4")), "-1,234");
    assert_eq!(format_grouped_integer(parse_decimal("-1234.5")), "-1,235");
    assert_eq!(format_grouped_integer(parse_decimal("-0.3")), "0");
    assert_eq!(format_grouped_integer(parse_decimal("-0.5")), "-1");
}

#[test]
fn signed_delta_shows_sign_and_places() {
    assert_eq!(format_signed_delta(change("0"), 0), "+0");
    assert_eq!(format_signed_delta(change("0"), 2), "+0.00");
    assert_eq!(format_signed_delta(change("1.11"), 2), "+1.11");
    assert_eq!(format_signed_delta(change("-1.11"), 2), "-1.11");
    assert_eq!(format_signed_delta(change("62.431"), 2), "+62.43");
    assert_eq!(format_signed_delta(change("1234567.891"), 2), "+1234567.89");
    assert_eq!(format_signed_delta(change("-0.001"), 2), "-0.00");
    assert_eq!(format_signed_delta(change("12.5"), 0), "+13");
    assert_eq!(format_signed_delta(change("-12.5"), 0), "-13");
    assert_eq!(format_signed_delta(change("0.05"), 1), "+0.1");
    assert_eq!(format_signed_delta(change("9.995"), 2), "+10.00");
    assert_eq!(format_signed_delta(change("9.99499999"), 2), "+9.99");
}

#[test]
fn signed_delta_at_and_past_full_precision() {
    assert_eq!(format_signed_delta(change("1.00000001"), 8), "+1.00000001");
    assert_eq!(format_signed_delta(change("1.00000001"), 7), "+1.0000000");
    assert_eq!(format_signed_delta(change("1.00000005"), 7), "+1.0000001");
    assert_eq!(format_signed_delta(change("-3.25"), 10), "-3.2500000000");
    assert_eq!(format_signed_delta(change("0.5"), 12), "+0.500000000000");
}

#[test]
fn signed_delta_of_extreme_differences() {
    assert_eq!(
        format_signed_delta(Difference::from_units(i128::MAX), 8),
        "+1701411834604692317316873037158.84105727"
    );
    assert_eq!(
        format_signed_delta(Difference::from_units(i128::MIN), 8),
        "-1701411834604692317316873037158.84105728"
    );
    assert_eq!(
        format_signed_delta(Difference::from_units(i128::MIN), 0),
        "-1701411834604692317316873037159"
    );
    assert_eq!(
        format_signed_grouped(Difference::from_units(i128::MIN)),
        "-1,701,411,834,604,692,317,316,873,037,159"
    );
}

#[test]
fn signed_grouped_shows_sign_and_groups() {
    assert_eq!(format_signed_grouped(change("11018658.5542")), "+11,018,659");
    assert_eq!(format_signed_grouped(change("-11018658.5542")), "-11,018,659");
    assert_eq!(format_signed_grouped(change("0")), "+0");
    assert_eq!(format_signed_grouped(change("-0.3")), "-0");
    assert_eq!(format_signed_grouped(change("999.5")), "+1,000");
    assert_eq!(format_signed_grouped(change("12")), "+12");
}

#[test]
fn percent_with_and_without_delta() {
    assert_eq!(
        format_percent_with_delta(parse_decimal("53.21"), Some(change("1.11"))),
        "53.21% (+1.11)"
    );
    assert_eq!(format_percent_with_delta(parse_decimal("53.21"), None), "53.21% ( - )");
}

#[test]
fn percent_rounds_and_signs() {
    assert_eq!(
        format_percent_with_delta(parse_decimal("46.79"), Some(change("-1.11"))),
        "46.79% (-1.11)"
    );
    assert_eq!(
        format_percent_with_delta(parse_decimal("53.215"), Some(change("0"))),
        "53.22% (+0.00)"
    );
    assert_eq!(format_percent_with_delta(parse_decimal("-0.001"), None), "-0.00% ( - )");
    assert_eq!(format_percent_with_delta(parse_decimal("100"), None), "100.00% ( - )");
    assert_eq!(
        format_percent_with_delta(parse_percent("0.5321"), Some(change("0.004"))),
        "53.21% (+0.00)"
    );
}
