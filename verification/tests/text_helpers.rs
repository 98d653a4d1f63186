use wsf::text::{has_prefix_folded, push_decimal, push_fixed, push_nat, read_digits};
use wsf::text::to_ascii_lower;

fn decimal(n: i64) -> String {
    let mut out = String::new();
    push_decimal(&mut out, n);
    out
}

#[test]
fn folds_ascii_capitals_only() {
    assert_eq!(to_ascii_lower('A'), 'a');
    assert_eq!(to_ascii_lower('Z'), 'z');
    assert_eq!(to_ascii_lower('m'), 'm');
    assert_eq!(to_ascii_lower('@'), '@');
    assert_eq!(to_ascii_lower('['), '[');
    assert_eq!(to_ascii_lower('É'), 'É');
    assert_eq!(to_ascii_lower('7'), '7');
}

#[test]
fn prefix_test_ignores_ascii_case() {
    assert!(has_prefix_folded("Seattle", "sea"));
    assert!(has_prefix_folded("Seattle", "SEA"));
    assert!(has_prefix_folded("seattle", "Seattle"));
    assert!(has_prefix_folded("Seattle", ""));
    assert!(has_prefix_folded("", ""));
    assert!(!has_prefix_folded("Seattle", "eat"));
    assert!(!has_prefix_folded("Sea", "Seattle"));
    assert!(!has_prefix_folded("", "s"));
    assert!(has_prefix_folded("Bainbridge Island", "bainbridge i"));
}

#[test]
fn prefix_test_agrees_with_std() {
    let names = ["Seattle", "Bainbridge Island", "Point Defiance", "Éclair", ""];
    let terms = ["s", "SEA", "b", "point d", "é", "É", "ecl", "", "seattle ", "Poi"];
    for name in names {
        for term in terms {
            let expected = name.to_ascii_lowercase().starts_with(&term.to_ascii_lowercase());
            assert_eq!(has_prefix_folded(name, term), expected, "{:?} {:?}", name, term);
        }
    }
}

#[test]
fn writes_decimals_as_std_does() {
    assert_eq!(decimal(0), "0");
    assert_eq!(decimal(7), "7");
    assert_eq!(decimal(10), "10");
    assert_eq!(decimal(-5), "-5");
    assert_eq!(decimal(2015), "2015");
    for n in [i64::MIN, i64::MIN + 1, -1000, -1, 0, 1, 9, 10, 99, 100, 12345, i64::MAX] {
        assert_eq!(decimal(n), format!("{}", n));
    }
    for n in [i32::MIN, -1, 0, 1, i32::MAX] {
        assert_eq!(decimal(n as i64), format!("{}", n));
    }
}

#[test]
fn push_nat_appends_to_what_is_there() {
    let mut out = String::from("n=");
    push_nat(&mut out, 0);
    push_nat(&mut out, 405);
    push_nat(&mut out, u64::MAX);
    assert_eq!(out, format!("n=0405{}", u64::MAX));
}

#[test]
fn push_fixed_pads_and_cuts() {
    let mut out = String::new();
    push_fixed(&mut out, 7, 2);
    assert_eq!(out, "07");
    let mut out = String::new();
    push_fixed(&mut out, 1234, 2);
    assert_eq!(out, "34");
    let mut out = String::new();
    push_fixed(&mut out, 5, 0);
    assert_eq!(out, "");
    let mut out = String::from("x");
    push_fixed(&mut out, 1436318400, 10);
    assert_eq!(out, "x1436318400");
}

#[test]
fn read_digits_reads_a_range() {
    assert_eq!(read_digits("ab1234cd", 2, 6), Some(1234));
    assert_eq!(read_digits("ab1234cd", 2, 2), Some(0));
    assert_eq!(read_digits("007", 0, 3), Some(7));
    assert_eq!(read_digits("ab1234cd", 1, 6), None);
    assert_eq!(read_digits("12-4", 0, 4), None);
    assert_eq!(read_digits("٣4", 0, 2), None);
    assert_eq!(read_digits("999999999999999999", 0, 18), Some(999_999_999_999_999_999));
}
