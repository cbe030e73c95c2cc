use rpn_calc::{EvalError, RpnCalculator};

#[test]
fn test_ok() {
    let calc = RpnCalculator::new(false);

    assert_eq!(calc.eval("5").unwrap(), 5);
    assert_eq!(calc.eval("50").unwrap(), 50);
    assert_eq!(calc.eval("-50").unwrap(), -50);
    assert_eq!(calc.eval("2 3 +").unwrap(), 5);
    assert_eq!(calc.eval("2 3 *").unwrap(), 6);
    assert_eq!(calc.eval("2 3 -").unwrap(), -1);
    assert_eq!(calc.eval("2 3 /").unwrap(), 0);
    assert_eq!(calc.eval("2 3 %").unwrap(), 2);
}

#[test]
fn test_ng() {
    let calc = RpnCalculator::new(false);
    assert!(calc.eval("").is_err());
    assert!(calc.eval("1 1 1 +").is_err());
    assert!(calc.eval("+ 1 1").is_err());
}

#[test]
fn a_single_number_is_its_own_value() {
    let calc = RpnCalculator::new(false);
    assert_eq!(calc.eval("5"), Ok(5));
    assert_eq!(calc.eval("-50"), Ok(-50));
    assert_eq!(calc.eval("0"), Ok(0));
}

#[test]
fn each_operator_on_two_and_three() {
    let calc = RpnCalculator::new(false);
    assert_eq!(calc.eval("2 3 +"), Ok(5));
    assert_eq!(calc.eval("2 3 *"), Ok(6));
    assert_eq!(calc.eval("2 3 -"), Ok(-1));
    assert_eq!(calc.eval("2 3 /"), Ok(0));
    assert_eq!(calc.eval("2 3 %"), Ok(2));
}

#[test]
fn the_number_pushed_last_is_the_right_operand() {
    let calc = RpnCalculator::new(false);
    assert_eq!(calc.eval("10 3 -"), Ok(7));
    assert_eq!(calc.eval("10 3 /"), Ok(3));
    assert_eq!(calc.eval("10 3 %"), Ok(1));
    assert_eq!(calc.eval("3 10 -"), Ok(-7));
}

#[test]
fn an_empty_line_is_a_syntax_error_at_zero() {
    let calc = RpnCalculator::new(false);
    assert_eq!(calc.eval(""), Err(EvalError::InvalidSyntax { position: 0 }));
    assert_eq!(calc.eval("   \t \n"), Err(EvalError::InvalidSyntax { position: 0 }));
}

#[test]
fn numbers_left_over_are_a_syntax_error_at_the_word_count() {
    let calc = RpnCalculator::new(false);
    assert_eq!(calc.eval("1 1 1 +"), Err(EvalError::InvalidSyntax { position: 4 }));
    assert_eq!(calc.eval("1 2"), Err(EvalError::InvalidSyntax { position: 2 }));
}

#[test]
fn an_operator_short_of_operands_is_a_syntax_error_where_it_stands() {
    let calc = RpnCalculator::new(false);
    assert_eq!(calc.eval("+ 1 1"), Err(EvalError::InvalidSyntax { position: 1 }));
    assert_eq!(calc.eval("1 +"), Err(EvalError::InvalidSyntax { position: 2 }));
    assert_eq!(calc.eval("1 2 + *"), Err(EvalError::InvalidSyntax { position: 4 }));
}

#[test]
fn division_by_zero_is_reported_where_it_stands() {
    let calc = RpnCalculator::new(false);
    assert_eq!(calc.eval("3 0 /"), Err(EvalError::DivisionByZero { position: 3 }));
    assert_eq!(calc.eval("3 0 %"), Err(EvalError::DivisionByZero { position: 3 }));
    assert_eq!(calc.eval("1 3 3 3 - / +"), Err(EvalError::DivisionByZero { position: 6 }));
    assert_eq!(calc.eval("0 3 /"), Ok(0));
}

#[test]
fn an_unknown_word_with_two_operands_is_an_invalid_token() {
    let calc = RpnCalculator::new(false);
    assert_eq!(
        calc.eval("3 4 x"),
        Err(EvalError::InvalidToken { position: 3, token: String::from("x") })
    );
    assert_eq!(
        calc.eval("3 4 xyz +"),
        Err(EvalError::InvalidToken { position: 3, token: String::from("xyz") })
    );
    assert_eq!(
        calc.eval("1 2 ++"),
        Err(EvalError::InvalidToken { position: 3, token: String::from("++") })
    );
}

#[test]
fn an_unknown_word_short_of_operands_is_a_syntax_error() {
    let calc = RpnCalculator::new(false);
    assert_eq!(calc.eval("3 x +"), Err(EvalError::InvalidSyntax { position: 2 }));
    assert_eq!(calc.eval("x"), Err(EvalError::InvalidSyntax { position: 1 }));
}

#[test]
fn the_first_failure_is_the_one_reported() {
    let calc = RpnCalculator::new(false);
    assert_eq!(calc.eval("1 0 / x y"), Err(EvalError::DivisionByZero { position: 3 }));
    assert_eq!(
        calc.eval("1 2 x 0 /"),
        Err(EvalError::InvalidToken { position: 3, token: String::from("x") })
    );
}

#[test]
fn the_same_line_gives_the_same_result_again() {
    let calc = RpnCalculator::new(false);
    let verbose = RpnCalculator::new(true);
    for line in ["", "5", "2 3 +", "1 1 1 +", "+ 1 1", "3 0 /", "3 4 x", "1 2 3 * -"] {
        let first = calc.eval(line);
        let second = calc.eval(line);
        assert_eq!(first, second);
        assert_eq!(first, verbose.eval(line));
    }
}

#[test]
fn a_failed_line_leaves_nothing_behind() {
    let calc = RpnCalculator::new(false);
    assert_eq!(calc.eval("1 2"), Err(EvalError::InvalidSyntax { position: 2 }));
    assert_eq!(calc.eval("+"), Err(EvalError::InvalidSyntax { position: 1 }));
    assert_eq!(calc.eval("4"), Ok(4));
}

#[test]
fn numbers_followed_by_one_operator_fewer_have_a_value() {
    let calc = RpnCalculator::new(false);
    assert_eq!(calc.eval("1 2 3 4 + + +"), Ok(10));
    assert_eq!(calc.eval("1 2 3 * -"), Ok(-5));
    assert_eq!(calc.eval("100 7 3 % /"), Ok(100));
    assert_eq!(calc.eval("9 8 7 6 5 - * / %"), Ok(0));
}

#[test]
fn operators_may_stand_between_the_numbers() {
    let calc = RpnCalculator::new(false);
    assert_eq!(calc.eval("1 2 + 3 4 + *"), Ok(21));
    assert_eq!(calc.eval("5 1 2 + 4 * + 3 -"), Ok(14));
}

#[test]
fn division_rounds_toward_zero() {
    let calc = RpnCalculator::new(false);
    assert_eq!(calc.eval("7 2 /"), Ok(3));
    assert_eq!(calc.eval("-7 2 /"), Ok(-3));
    assert_eq!(calc.eval("7 -2 /"), Ok(-3));
    assert_eq!(calc.eval("-7 -2 /"), Ok(3));
}

#[test]
fn the_remainder_has_the_sign_of_the_dividend() {
    let calc = RpnCalculator::new(false);
    assert_eq!(calc.eval("7 2 %"), Ok(1));
    assert_eq!(calc.eval("-7 2 %"), Ok(-1));
    assert_eq!(calc.eval("7 -2 %"), Ok(1));
    assert_eq!(calc.eval("-7 -2 %"), Ok(-1));
    assert_eq!(calc.eval("-6 3 %"), Ok(0));
}

#[test]
fn results_that_do_not_fit_wrap_around() {
    let calc = RpnCalculator::new(false);
    assert_eq!(calc.eval("2147483647 1 +"), Ok(-2147483648));
    assert_eq!(calc.eval("-2147483648 1 -"), Ok(2147483647));
    assert_eq!(calc.eval("65536 65536 *"), Ok(0));
    assert_eq!(calc.eval("65537 65537 *"), Ok(131073));
    assert_eq!(calc.eval("-2147483648 -1 *"), Ok(-2147483648));
    assert_eq!(calc.eval("-2147483648 -1 /"), Ok(-2147483648));
    assert_eq!(calc.eval("-2147483648 -1 %"), Ok(0));
    assert_eq!(calc.eval("-2147483648 1 /"), Ok(-2147483648));
}

#[test]
fn numbers_may_carry_a_sign_and_leading_zeros() {
    let calc = RpnCalculator::new(false);
    assert_eq!(calc.eval("+5"), Ok(5));
    assert_eq!(calc.eval("-0"), Ok(0));
    assert_eq!(calc.eval("007"), Ok(7));
    assert_eq!(calc.eval("-2147483648"), Ok(-2147483648));
    assert_eq!(calc.eval("2147483647"), Ok(2147483647));
    assert_eq!(calc.eval("00000000002147483647"), Ok(2147483647));
    assert_eq!(calc.eval("1 -1 -"), Ok(2));
    assert_eq!(calc.eval("1 +1 +"), Ok(2));
}

#[test]
fn a_number_too_large_is_no_number() {
    let calc = RpnCalculator::new(false);
    assert_eq!(calc.eval("2147483648"), Err(EvalError::InvalidSyntax { position: 1 }));
    assert_eq!(
        calc.eval("1 2 2147483648"),
        Err(EvalError::InvalidToken { position: 3, token: String::from("2147483648") })
    );
    assert_eq!(
        calc.eval("1 2 -2147483649"),
        Err(EvalError::InvalidToken { position: 3, token: String::from("-2147483649") })
    );
    assert_eq!(
        calc.eval("1 2 99999999999999999999999999"),
        Err(
            EvalError::InvalidToken {
                position: 3,
                token: String::from("99999999999999999999999999"),
            }
        )
    );
}

#[test]
fn words_that_only_look_like_numbers_are_no_numbers() {
    let calc = RpnCalculator::new(false);
    for word in ["1.5", "1e3", "--1", "+-1", "1-", "0x10", "1_000", "\u{ff11}", "\u{661}"] {
        let line = format!("1 2 {}", word);
        assert_eq!(
            calc.eval(&line),
            Err(EvalError::InvalidToken { position: 3, token: String::from(word) })
        );
    }
}

#[test]
fn any_white_space_separates_words() {
    let calc = RpnCalculator::new(false);
    assert_eq!(calc.eval("  2   3\t+\n"), Ok(5));
    assert_eq!(calc.eval("\r\n2\u{b}3\u{c}+"), Ok(5));
    assert_eq!(calc.eval("2\u{3000}3\u{a0}+"), Ok(5));
    assert_eq!(calc.eval("2\u{2003}3\u{85}*\u{1680}"), Ok(6));
    assert_eq!(calc.eval("2\u{2028}3\u{2029}-\u{202f}\u{205f}"), Ok(-1));
}

#[test]
fn a_zero_width_space_is_part_of_a_word() {
    let calc = RpnCalculator::new(false);
    assert_eq!(
        calc.eval("1 2 3\u{200b}4"),
        Err(EvalError::InvalidToken { position: 3, token: String::from("3\u{200b}4") })
    );
}

#[test]
fn the_calculator_remembers_whether_it_is_verbose() {
    assert!(RpnCalculator::new(true).verbose());
    assert!(!RpnCalculator::new(false).verbose());
}
