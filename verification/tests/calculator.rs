use calc_fx::calculator::{on_calc_press, Calculator};

#[test]
fn first_dot_appends_second_dot_ignored() {
    let mut c = Calculator::new();
    c.input_digit("3");
    c.input_digit(".");
    assert_eq!(c.display(), "3.");
    c.input_digit(".");
    assert_eq!(c.display(), "3.");
    c.input_digit("5");
    assert_eq!(c.display(), "3.5");
    c.input_digit(".");
    assert_eq!(c.display(), "3.5");
}

#[test]
fn dot_on_empty_token() {
    let mut c = Calculator::new();
    c.input_digit(".");
    assert_eq!(c.display(), ".");
    c.input_digit(".");
    assert_eq!(c.display(), ".");
}

#[test]
fn digit_after_evaluate_starts_fresh() {
    let mut c = Calculator::new();
    c.input_digit("7");
    let r = c.evaluate();
    assert_eq!(r.micros(), 7_000_000);
    assert_eq!(c.display(), "7");
    c.input_digit("3");
    assert_eq!(c.display(), "3");
    let r2 = c.evaluate();
    assert_eq!(r2.micros(), 3_000_000);
}

#[test]
fn dot_after_evaluate_keeps_state() {
    let mut c = Calculator::new();
    c.input_digit("7");
    c.evaluate();
    // a point is not a digit, so it does not start a fresh number
    c.input_digit(".");
    assert_eq!(c.display(), ".");
    // the just-evaluated flag is still set, so a digit starts fresh
    c.input_digit("5");
    assert_eq!(c.display(), "5");
}

#[test]
fn operator_chaining_three_plus_four_plus_five() {
    let mut c = Calculator::new();
    c.clear();
    c.input_digit("3");
    c.set_operator('+');
    c.input_digit("4");
    c.set_operator('+');
    c.input_digit("5");
    let r = c.evaluate();
    assert_eq!(r.micros(), 12_000_000);
    assert_eq!(c.display(), "12");
}

#[test]
fn division_by_zero_yields_zero() {
    let mut c = Calculator::new();
    c.clear();
    c.input_digit("5");
    c.set_operator('/');
    c.input_digit("0");
    let r = c.evaluate();
    assert_eq!(r.micros(), 0);
    assert_eq!(c.display(), "0");
}

#[test]
fn backspace_on_empty_is_a_no_op() {
    let mut c = Calculator::new();
    c.input_digit("5");
    c.set_operator('+');
    // current is now empty; backspace must not touch accumulator or operator
    c.backspace();
    assert_eq!(c.display(), "5");
    c.input_digit("2");
    let r = c.evaluate();
    assert_eq!(r.micros(), 7_000_000);
}

#[test]
fn backspace_removes_last_char() {
    let mut c = Calculator::new();
    c.input_digit("1");
    c.input_digit("2");
    c.input_digit("3");
    c.backspace();
    assert_eq!(c.display(), "12");
    c.backspace();
    c.backspace();
    assert_eq!(c.display(), "0");
}

#[test]
fn operator_replaced_before_second_operand() {
    let mut c = Calculator::new();
    c.input_digit("3");
    c.set_operator('+');
    c.set_operator('*');
    c.input_digit("4");
    let r = c.evaluate();
    assert_eq!(r.micros(), 12_000_000);
}

#[test]
fn exact_decimal_addition() {
    let mut c = Calculator::new();
    c.input_digit("0");
    c.input_digit(".");
    c.input_digit("1");
    c.set_operator('+');
    c.input_digit("0");
    c.input_digit(".");
    c.input_digit("2");
    let r = c.evaluate();
    assert_eq!(r.micros(), 300_000);
    assert_eq!(c.display(), "0.3");
}

#[test]
fn subtraction_below_zero_formats_with_sign() {
    let mut c = Calculator::new();
    c.input_digit("3");
    c.set_operator('-');
    c.input_digit("5");
    let r = c.evaluate();
    assert_eq!(r.micros(), -2_000_000);
    assert_eq!(c.display(), "-2");
}

#[test]
fn default_display_is_zero() {
    let c = Calculator::default();
    assert_eq!(c.display(), "0");
}

#[test]
fn multiplication_with_fraction() {
    let mut c = Calculator::new();
    c.input_digit("2");
    c.input_digit(".");
    c.input_digit("5");
    c.set_operator('*');
    c.input_digit("4");
    let r = c.evaluate();
    assert_eq!(r.micros(), 10_000_000);
    assert_eq!(c.display(), "10");
}

#[test]
fn division_truncates_toward_zero() {
    let mut c = Calculator::new();
    c.input_digit("1");
    c.set_operator('/');
    c.input_digit("3");
    let r = c.evaluate();
    assert_eq!(r.micros(), 333_333);
    assert_eq!(c.display(), "0.333333");
}

#[test]
fn press_keys_drive_the_engine() {
    let mut c = Calculator::new();
    assert_eq!(on_calc_press(&mut c, "3"), "3");
    assert_eq!(on_calc_press(&mut c, "+"), "3");
    assert_eq!(on_calc_press(&mut c, "4"), "4");
    assert_eq!(on_calc_press(&mut c, "="), "7");
    assert_eq!(on_calc_press(&mut c, "X"), "7");
    assert_eq!(on_calc_press(&mut c, "C"), "0");
}

#[test]
fn trailing_fraction_zeros_are_trimmed() {
    let mut c = Calculator::new();
    c.input_digit("1");
    c.input_digit(".");
    c.input_digit("5");
    c.input_digit("0");
    assert_eq!(c.display(), "1.50");
    c.evaluate();
    assert_eq!(c.display(), "1.5");
}

#[test]
fn oversized_input_saturates_at_the_range_bound() {
    let mut c = Calculator::new();
    for _ in 0..13 {
        c.input_digit("9");
    }
    let r = c.evaluate();
    // the bound is one hundred billion whole units
    assert_eq!(r.micros(), 100_000_000_000_000_000);
    assert_eq!(c.display(), "100000000000");
}

#[test]
fn fraction_beyond_six_digits_truncates() {
    let mut c = Calculator::new();
    c.input_digit("0");
    c.input_digit(".");
    for _ in 0..8 {
        c.input_digit("1");
    }
    let r = c.evaluate();
    assert_eq!(r.micros(), 111_111);
    assert_eq!(c.display(), "0.111111");
}

#[test]
fn unknown_key_is_ignored() {
    let mut c = Calculator::new();
    on_calc_press(&mut c, "5");
    assert_eq!(on_calc_press(&mut c, "%"), "5");
    assert_eq!(on_calc_press(&mut c, "hello"), "5");
    assert_eq!(on_calc_press(&mut c, ""), "5");
}
