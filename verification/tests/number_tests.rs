use rlox::basic_function::{to_string, RcRef};
use rlox::lox_error::Errors;
use rlox::number::{num_add, num_div, num_mul, num_neg, num_sub, parse_number, render_number, SCALE};

fn render(m: i64) -> String {
    String::from_utf8(render_number(m)).unwrap()
}

#[test]
fn parses_integers_and_fractions() {
    assert_eq!(parse_number(b"12"), 12 * SCALE);
    assert_eq!(parse_number(b"12.5"), 12 * SCALE + SCALE / 2);
    assert_eq!(parse_number(b"0.25"), SCALE / 4);
    assert_eq!(parse_number(b"0"), 0);
}

#[test]
fn parsing_keeps_six_fractional_digits() {
    assert_eq!(parse_number(b"0.000001"), 1);
    // The seventh fractional digit is dropped.
    assert_eq!(parse_number(b"0.0000019"), 1);
}

#[test]
fn parsing_saturates_on_huge_literals() {
    assert_eq!(parse_number(b"99999999999999999999999999"), i64::MAX);
}

#[test]
fn arithmetic_is_exact_within_range() {
    assert_eq!(num_add(2 * SCALE, 3 * SCALE), 5 * SCALE);
    assert_eq!(num_sub(2 * SCALE, 3 * SCALE), -SCALE);
    assert_eq!(num_mul(3 * SCALE, 4 * SCALE), 12 * SCALE);
    assert_eq!(num_div(7 * SCALE, 2 * SCALE), 3 * SCALE + SCALE / 2);
    assert_eq!(num_neg(5 * SCALE), -5 * SCALE);
}

#[test]
fn multiplication_and_division_truncate_toward_zero() {
    // (1/1000) * (1/1000) is one millionth.
    assert_eq!(num_mul(SCALE / 1000, SCALE / 1000), 1);
    // (-1/1000) * (1/1000) truncates toward zero, not downward.
    assert_eq!(num_mul(-(SCALE / 1000), SCALE / 1000), -1);
    assert_eq!(num_div(-SCALE, 3 * SCALE), -333333);
    assert_eq!(num_div(SCALE, 3 * SCALE), 333333);
}

#[test]
fn addition_saturates_at_the_bounds() {
    assert_eq!(num_add(i64::MAX, 1), i64::MAX);
    assert_eq!(num_sub(i64::MIN, 1), i64::MIN);
    assert_eq!(num_neg(i64::MIN), i64::MAX);
    assert_eq!(num_mul(i64::MAX, 2 * SCALE), i64::MAX);
    assert_eq!(num_mul(i64::MIN, 2 * SCALE), i64::MIN);
}

#[test]
fn rendering_strips_trailing_zeros() {
    assert_eq!(render(14 * SCALE), "14");
    assert_eq!(render(SCALE / 2), "0.5");
    assert_eq!(render(-(3 * SCALE + SCALE / 2)), "-3.5");
    assert_eq!(render(1), "0.000001");
    assert_eq!(render(0), "0");
    assert_eq!(render(10 * SCALE + 100), "10.0001");
}

#[test]
fn parse_and_render_round_trip_on_clean_literals() {
    for s in ["0", "1", "12.5", "0.25", "7.125", "123456.654321"] {
        assert_eq!(render(parse_number(s.as_bytes())), s);
    }
}

#[test]
fn result_text_folding() {
    assert_eq!(to_string(Ok(String::from("fine"))), "fine");
    assert_eq!(to_string(Err(String::from("bad"))), "Error:bad");
}

#[test]
fn rcref_cell_holds_and_hands_out_its_value() {
    let mut cell = RcRef::new(41);
    assert_eq!(*cell.brw(), 41);
    assert_eq!(*cell.inner(), 41);
    assert_eq!(cell.clone_inner(), 41);
    *cell.brw_mut() = 42;
    assert_eq!(*cell.brw(), 42);
}

#[test]
fn errors_list_reports_its_size() {
    let e: Errors<u8> = Errors::from_vec(vec![1, 2, 3]);
    assert_eq!(e.len(), 3);
    assert!(!e.is_empty());
    let none: Errors<u8> = Errors::from_vec(Vec::new());
    assert!(none.is_empty());
}
