use testocr::decimal::i32_to_string;
use testocr::formula::{cpt_basic_arithmetic, formula_fits_check, reset_formula, LastFormula, Operator};

fn answer(last: &mut LastFormula, text: &str) -> Option<String> {
    assert!(formula_fits_check(last, text));
    cpt_basic_arithmetic(last, text)
}

#[test]
fn decimal_text_of_integers() {
    assert_eq!(i32_to_string(0), "0");
    assert_eq!(i32_to_string(7), "7");
    assert_eq!(i32_to_string(1234), "1234");
    assert_eq!(i32_to_string(-3), "-3");
    assert_eq!(i32_to_string(i32::MAX), "2147483647");
    assert_eq!(i32_to_string(i32::MIN), "-2147483648");
}

#[test]
fn each_operator_is_computed() {
    let mut last = LastFormula::new();
    assert_eq!(answer(&mut last, "12 + 3"), Some("15".to_string()));
    assert_eq!(answer(&mut last, "7x8"), Some("56".to_string()));
    assert_eq!(answer(&mut last, "9 - 12"), Some("-3".to_string()));
    assert_eq!(answer(&mut last, "7/2"), Some("3".to_string()));
}

#[test]
fn memory_holds_last_formula() {
    let mut last = LastFormula::new();
    assert_eq!(answer(&mut last, "40 / 5 ="), Some("8".to_string()));
    assert_eq!(last.num1, 40);
    assert_eq!(last.op, Some(Operator::Div));
    assert_eq!(last.num2, 5);
}

#[test]
fn same_formula_is_answered_once() {
    let mut last = LastFormula::new();
    assert_eq!(answer(&mut last, "3+4"), Some("7".to_string()));
    assert_eq!(answer(&mut last, "3+4"), None);
    assert_eq!(answer(&mut last, " 3 + 4 ="), None);
    assert_eq!(answer(&mut last, "3+5"), Some("8".to_string()));
    assert_eq!(answer(&mut last, "3+4"), Some("7".to_string()));
}

#[test]
fn reset_answers_again() {
    let mut last = LastFormula::new();
    assert_eq!(answer(&mut last, "6x6"), Some("36".to_string()));
    assert_eq!(answer(&mut last, "6x6"), None);
    reset_formula(&mut last);
    assert_eq!(last.num1, 0);
    assert_eq!(last.op, None);
    assert_eq!(last.num2, 0);
    assert_eq!(answer(&mut last, "6x6"), Some("36".to_string()));
}

#[test]
fn zero_formula_after_reset_is_answered() {
    let mut last = LastFormula::new();
    assert_eq!(answer(&mut last, "0+0"), Some("0".to_string()));
}

#[test]
fn no_formula_gives_nothing() {
    let mut last = LastFormula::new();
    assert_eq!(answer(&mut last, ""), None);
    assert_eq!(answer(&mut last, "hello = ?"), None);
    assert_eq!(answer(&mut last, "12 * 3"), None);
    assert_eq!(answer(&mut last, "12 +"), None);
    assert_eq!(answer(&mut last, "+ 3"), None);
    assert_eq!(last.op, None);
}

#[test]
fn leftmost_formula_is_taken() {
    let mut last = LastFormula::new();
    assert_eq!(answer(&mut last, "1 2+3 and 5x5"), Some("5".to_string()));
    assert_eq!(answer(&mut last, "a 9 = 4-1, 2+2"), Some("3".to_string()));
}

#[test]
fn digit_runs_are_read_whole() {
    let mut last = LastFormula::new();
    assert_eq!(answer(&mut last, "007+1"), Some("8".to_string()));
    assert_eq!(answer(&mut last, "x12x3"), Some("36".to_string()));
}

#[test]
fn unicode_white_space_is_skipped() {
    let mut last = LastFormula::new();
    assert_eq!(answer(&mut last, "3\u{00a0}+\u{3000}4"), Some("7".to_string()));
    assert_eq!(answer(&mut last, "5\t\n-\r 1"), Some("4".to_string()));
}

#[test]
fn failing_inputs_are_detected() {
    let last = LastFormula::new();
    assert!(!formula_fits_check(&last, "99999999999+1"));
    assert!(!formula_fits_check(&last, "1+99999999999"));
    assert!(!formula_fits_check(&last, "2147483647+1"));
    assert!(!formula_fits_check(&last, "65536x65536"));
    assert!(!formula_fits_check(&last, "5/0"));
    assert!(formula_fits_check(&last, "2147483647+0"));
    assert!(formula_fits_check(&last, "no formula"));
}

#[test]
fn repeat_of_division_by_zero_is_no_failure() {
    let mut last = LastFormula { num1: 5, op: Some(Operator::Div), num2: 0 };
    assert!(formula_fits_check(&last, "5/0"));
    assert_eq!(cpt_basic_arithmetic(&mut last, "5/0"), None);
}

#[test]
fn answer_reads_back_as_its_value() {
    let mut last = LastFormula::new();
    let text = answer(&mut last, "123x456").unwrap();
    assert_eq!(text.parse::<i32>().unwrap(), 123 * 456);
}
