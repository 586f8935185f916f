use color::decimal::Decimal;
use color::lexer::{number, percentage, LITERAL_CAP};

fn chars(s: &str) -> Vec<char> {
    s.chars().collect()
}

fn num(s: &str) -> Option<(usize, i64)> {
    number(&chars(s), 0).map(|(j, v)| (j, v.micros))
}

#[test]
fn numbers_in_every_form() {
    assert_eq!(num("12"), Some((2, 12_000_000)));
    assert_eq!(num("04"), Some((2, 4_000_000)));
    assert_eq!(num("11.22x"), Some((5, 11_220_000)));
    assert_eq!(num("-24.3"), Some((5, -24_300_000)));
    assert_eq!(num("+.5"), Some((3, 500_000)));
    assert_eq!(num("5."), Some((2, 5_000_000)));
    assert_eq!(num("1e2"), Some((3, 100_000_000)));
    assert_eq!(num("25E-1"), Some((5, 2_500_000)));
    assert_eq!(num("1.5e+1deg"), Some((6, 15_000_000)));
}

#[test]
fn numbers_round_to_micro_units() {
    assert_eq!(num("0.0000005"), Some((9, 1)));
    assert_eq!(num("0.0000004"), Some((9, 0)));
    assert_eq!(num("-0.0000005"), Some((10, -1)));
    assert_eq!(num("1.23456789"), Some((10, 1_234_568)));
    assert_eq!(num("1e-300"), Some((6, 0)));
}

#[test]
fn large_numbers_are_held_at_the_cap() {
    assert_eq!(num("1e40"), Some((4, LITERAL_CAP)));
    assert_eq!(num("-99999999999999999999999"), Some((24, -LITERAL_CAP)));
    assert_eq!(num("0e99999999999999999999999"), Some((25, 0)));
}

#[test]
fn non_numbers_are_refused() {
    assert_eq!(num(""), None);
    assert_eq!(num("."), None);
    assert_eq!(num("-"), None);
    assert_eq!(num("e5"), None);
    assert_eq!(num("x1"), None);
    // an exponent marker without digits is not part of the number
    assert_eq!(num("1e"), Some((1, 1_000_000)));
    assert_eq!(num("1e+"), Some((1, 1_000_000)));
}

#[test]
fn percentages_need_the_sign() {
    let p = |s: &str| percentage(&chars(s), 0).map(|(j, v)| (j, v.micros));
    assert_eq!(p("12%"), Some((3, 12_000_000)));
    assert_eq!(p("7.3%x"), Some((4, 7_300_000)));
    assert_eq!(p("12"), None);
    assert_eq!(p("12 %"), None);
}

#[test]
fn numbers_agree_with_nom() {
    let samples = [
        "0", "1", "04", "11.22", "-24.3", "+7", ".5", "5.", "1e3", "2.5E-2", "123456.75",
        "0.073", "360", "-0.0001",
    ];
    for s in samples {
        let (rest, expected) =
            nom::number::complete::float::<&str, nom::error::Error<&str>>(s).unwrap();
        assert_eq!(rest, "");
        let (end, value) = number(&chars(s), 0).unwrap();
        assert_eq!(end, s.len());
        let ours = value.micros as f64 / 1_000_000.0;
        assert!((ours - expected as f64).abs() <= 1e-6 * (1.0 + ours.abs()), "{}", s);
    }
}

#[test]
fn decimal_text() {
    assert_eq!(Decimal::new(0, 0).to_string(), "0");
    assert_eq!(Decimal::new(273, 0).to_string(), "273");
    assert_eq!(Decimal::new(86, 1).to_string(), "8.6");
    assert_eq!(Decimal::new(28611, 3).to_string(), "28.611");
    assert_eq!(Decimal::new(-15, 1).to_string(), "-1.5");
    assert_eq!(Decimal::new(1, 6).to_string(), "0.000001");
    assert_eq!(Decimal::new(-1000005, 6).to_string(), "-1.000005");
}

#[test]
fn decimal_constructors() {
    assert_eq!(Decimal::new(1122, 2).micros, 11_220_000);
    assert_eq!(Decimal::from_int(-3).micros, -3_000_000);
    assert_eq!(Decimal::new(5, 0).clamp(0, 1_000_000).micros, 1_000_000);
    assert_eq!(Decimal::new(-5, 0).clamp(0, 1_000_000).micros, 0);
}
