//! End-to-end tests of the stateless pipeline: tokenizer, infix-to-postfix
//! converter and postfix evaluator, driven with real double arithmetic.

use pmatinit::calculator::evaluate_expression_start;
use pmatinit::evaluator::{FunKind, NumRequest, Outcome, PostfixEvaluator};
use pmatinit::operators::Operator;
use pmatinit::parser::{infix_to_postfix, tokenize};
use pmatinit::tokens::{Num, Token};

/// Computes one arithmetic request with real double-precision arithmetic.
fn answer(req: NumRequest) -> u64 {
    match req {
        NumRequest::ParseLit(s) => s.parse::<f64>().unwrap().to_bits(),
        NumRequest::Binary(op, l, r) => {
            let l = f64::from_bits(l);
            let r = f64::from_bits(r);
            let v = match op {
                Operator::Add => l + r,
                Operator::Subtract => l - r,
                Operator::Multiply => l * r,
                Operator::Divide => l / r,
                Operator::Modulo => l % r,
                Operator::Power => l.powf(r),
            };
            v.to_bits()
        }
        NumRequest::Unary(k, a) => {
            let a = f64::from_bits(a);
            let v = match k {
                FunKind::Sqrt => a.sqrt(),
                FunKind::Sin => a.sin(),
                FunKind::Cos => a.cos(),
                FunKind::Tan => a.tan(),
                FunKind::Log => a.log10(),
                FunKind::Ln => a.ln(),
            };
            v.to_bits()
        }
        NumRequest::Factorial(n) => {
            let mut result = 1.0f64;
            let mut i = 2u64;
            while i <= n {
                result *= i as f64;
                i += 1;
            }
            result.to_bits()
        }
    }
}

/// Runs an evaluation machine to completion.
fn run_machine(mut ev: PostfixEvaluator) -> Result<f64, String> {
    loop {
        match ev.next() {
            Outcome::Continue => {}
            Outcome::Need(req) => match ev.resume(answer(req)) {
                Outcome::Continue => {}
                Outcome::Fail(e) => return Err(e.message),
                _ => panic!("unexpected resume outcome"),
            },
            Outcome::Done(bits) => return Ok(f64::from_bits(bits)),
            Outcome::Fail(e) => return Err(e.message),
        }
    }
}

/// Evaluates an expression without variable support.
fn evaluate_expression(expression: &str) -> Result<f64, String> {
    let ev = evaluate_expression_start(expression).map_err(|e| e.message)?;
    run_machine(ev)
}

fn lit_is(t: &Token, text: &str) -> bool {
    matches!(t, Token::Number(Num::Lit(s)) if s == text)
}

// ---- tokenizer and converter shapes ----

#[test]
fn test_tokenize_simple() {
    let tokens = tokenize("2 + 3").unwrap();
    assert_eq!(tokens.len(), 3);
    assert!(lit_is(&tokens[0], "2"));
    assert!(matches!(tokens[1], Token::Operator(Operator::Add)));
    assert!(lit_is(&tokens[2], "3"));
}

#[test]
fn test_tokenize_with_parentheses() {
    let tokens = tokenize("(2 + 3) * 4").unwrap();
    assert_eq!(tokens.len(), 7);
    assert!(matches!(tokens[0], Token::LeftParen));
    assert!(matches!(tokens[2], Token::Operator(Operator::Add)));
    assert!(matches!(tokens[4], Token::RightParen));
}

#[test]
fn test_tokenize_negative_number() {
    let tokens = tokenize("-5 + 3").unwrap();
    assert_eq!(tokens.len(), 3);
    assert!(lit_is(&tokens[0], "-5"));
}

#[test]
fn test_tokenize_decimal() {
    let tokens = tokenize("3.14 + 2.5").unwrap();
    assert!(lit_is(&tokens[0], "3.14"));
    assert!(lit_is(&tokens[2], "2.5"));
}

#[test]
fn test_infix_to_postfix_simple() {
    let tokens = tokenize("2 + 3").unwrap();
    let postfix = infix_to_postfix(tokens).unwrap();
    assert_eq!(postfix.len(), 3);
    assert!(lit_is(&postfix[0], "2"));
    assert!(lit_is(&postfix[1], "3"));
    assert!(matches!(postfix[2], Token::Operator(Operator::Add)));
}

#[test]
fn test_infix_to_postfix_precedence() {
    let tokens = tokenize("2 + 3 * 4").unwrap();
    let postfix = infix_to_postfix(tokens).unwrap();
    assert!(lit_is(&postfix[0], "2"));
    assert!(lit_is(&postfix[1], "3"));
    assert!(lit_is(&postfix[2], "4"));
    assert!(matches!(postfix[3], Token::Operator(Operator::Multiply)));
    assert!(matches!(postfix[4], Token::Operator(Operator::Add)));
}

#[test]
fn test_tokenize_power_operator() {
    let tokens = tokenize("2 ^ 3").unwrap();
    assert_eq!(tokens.len(), 3);
    assert!(lit_is(&tokens[0], "2"));
    assert!(matches!(tokens[1], Token::Operator(Operator::Power)));
    assert!(lit_is(&tokens[2], "3"));
}

#[test]
fn test_power_precedence_over_multiply() {
    let tokens = tokenize("2 * 3 ^ 2").unwrap();
    let postfix = infix_to_postfix(tokens).unwrap();
    assert!(lit_is(&postfix[0], "2"));
    assert!(lit_is(&postfix[1], "3"));
    assert!(lit_is(&postfix[2], "2"));
    assert!(matches!(postfix[3], Token::Operator(Operator::Power)));
    assert!(matches!(postfix[4], Token::Operator(Operator::Multiply)));
}

#[test]
fn parser_test_power_right_associativity() {
    let tokens = tokenize("2 ^ 3 ^ 2").unwrap();
    let postfix = infix_to_postfix(tokens).unwrap();
    assert!(lit_is(&postfix[0], "2"));
    assert!(lit_is(&postfix[1], "3"));
    assert!(lit_is(&postfix[2], "2"));
    assert!(matches!(postfix[3], Token::Operator(Operator::Power)));
    assert!(matches!(postfix[4], Token::Operator(Operator::Power)));
}

// ---- postfix evaluation ----

#[test]
fn test_evaluate_simple_addition() {
    let tokens = tokenize("2 + 3").unwrap();
    let postfix = infix_to_postfix(tokens).unwrap();
    let result = run_machine(PostfixEvaluator::new(postfix)).unwrap();
    assert_eq!(result, 5.0);
}

#[test]
fn test_evaluate_precedence() {
    let tokens = tokenize("2 + 3 * 4").unwrap();
    let postfix = infix_to_postfix(tokens).unwrap();
    let result = run_machine(PostfixEvaluator::new(postfix)).unwrap();
    assert_eq!(result, 14.0);
}

#[test]
fn test_evaluate_with_parentheses() {
    let tokens = tokenize("(2 + 3) * 4").unwrap();
    let postfix = infix_to_postfix(tokens).unwrap();
    let result = run_machine(PostfixEvaluator::new(postfix)).unwrap();
    assert_eq!(result, 20.0);
}

#[test]
fn test_evaluate_division() {
    let tokens = tokenize("10 / 2").unwrap();
    let postfix = infix_to_postfix(tokens).unwrap();
    let result = run_machine(PostfixEvaluator::new(postfix)).unwrap();
    assert_eq!(result, 5.0);
}

#[test]
fn test_evaluate_division_by_zero() {
    let tokens = tokenize("10 / 0").unwrap();
    let postfix = infix_to_postfix(tokens).unwrap();
    let result = run_machine(PostfixEvaluator::new(postfix));
    assert!(result.is_err());
}

#[test]
fn test_evaluate_negative_numbers() {
    let tokens = tokenize("-5 + 3").unwrap();
    let postfix = infix_to_postfix(tokens).unwrap();
    let result = run_machine(PostfixEvaluator::new(postfix)).unwrap();
    assert_eq!(result, -2.0);
}

#[test]
fn test_evaluate_complex_expression() {
    let tokens = tokenize("(10 + 5) * 3 - 8 / 2").unwrap();
    let postfix = infix_to_postfix(tokens).unwrap();
    let result = run_machine(PostfixEvaluator::new(postfix)).unwrap();
    assert_eq!(result, 41.0);
}

// ---- end-to-end stateless evaluation ----

#[test]
fn test_simple_addition() {
    let result = evaluate_expression("2 + 2").unwrap();
    assert_eq!(result, 4.0);
}

#[test]
fn test_simple_subtraction() {
    let result = evaluate_expression("5 - 3").unwrap();
    assert_eq!(result, 2.0);
}

#[test]
fn test_simple_multiplication() {
    let result = evaluate_expression("3 * 4").unwrap();
    assert_eq!(result, 12.0);
}

#[test]
fn test_simple_division() {
    let result = evaluate_expression("10 / 2").unwrap();
    assert_eq!(result, 5.0);
}

#[test]
fn test_modulo() {
    let result = evaluate_expression("10 % 3").unwrap();
    assert_eq!(result, 1.0);
}

#[test]
fn integration_tests_test_operator_precedence() {
    let result = evaluate_expression("2 + 3 * 4").unwrap();
    assert_eq!(result, 14.0);
}

#[test]
fn test_parentheses() {
    let result = evaluate_expression("(2 + 3) * 4").unwrap();
    assert_eq!(result, 20.0);
}

#[test]
fn test_complex_expression() {
    let result = evaluate_expression("(10 + 5) * 3 - 8 / 2").unwrap();
    assert_eq!(result, 41.0);
}

#[test]
fn test_negative_numbers() {
    let result = evaluate_expression("-5 + 3").unwrap();
    assert_eq!(result, -2.0);
}

#[test]
fn test_decimal_numbers() {
    let result = evaluate_expression("3.14 + 2.86").unwrap();
    assert!((result - 6.0).abs() < 0.001);
}

#[test]
fn test_division_by_zero_error() {
    let result = evaluate_expression("10 / 0");
    assert!(result.is_err());
    let err_msg = result.unwrap_err();
    let err_lower = err_msg.to_lowercase();
    assert!(
        err_lower.contains("division") && err_lower.contains("zero"),
        "Expected error message to contain 'division' and 'zero', got: '{}'",
        err_msg
    );
}

#[test]
fn test_invalid_syntax_error() {
    let result = evaluate_expression("2 + + 3");
    assert!(result.is_err());
}

#[test]
fn test_mismatched_parentheses_error() {
    let result = evaluate_expression("(2 + 3");
    assert!(result.is_err());
}

#[test]
fn test_empty_expression() {
    let result = evaluate_expression("");
    assert!(result.is_err());
}

#[test]
fn test_whitespace_handling() {
    let result = evaluate_expression("  2   +   3  ").unwrap();
    assert_eq!(result, 5.0);
}

#[test]
fn integration_tests_test_power_operator() {
    let result = evaluate_expression("2 ^ 3").unwrap();
    assert_eq!(result, 8.0);
}

#[test]
fn integration_tests_test_power_precedence() {
    let result = evaluate_expression("2 * 3 ^ 2").unwrap();
    assert_eq!(result, 18.0);
}

#[test]
fn integration_tests_test_power_right_associativity() {
    let result = evaluate_expression("2 ^ 3 ^ 2").unwrap();
    assert_eq!(result, 512.0);
}

#[test]
fn test_power_with_parentheses() {
    let result = evaluate_expression("(2 ^ 3) ^ 2").unwrap();
    assert_eq!(result, 64.0);
}

#[test]
fn test_power_with_negative_exponent() {
    let result = evaluate_expression("2 ^ -2").unwrap();
    assert_eq!(result, 0.25);
}

#[test]
fn test_power_zero_exponent() {
    let result = evaluate_expression("5 ^ 0").unwrap();
    assert_eq!(result, 1.0);
}

#[test]
fn test_constant_pi() {
    let result = evaluate_expression("pi").unwrap();
    assert!((result - std::f64::consts::PI).abs() < 0.0001);
}

#[test]
fn test_constant_e() {
    let result = evaluate_expression("e").unwrap();
    assert!((result - std::f64::consts::E).abs() < 0.0001);
}

#[test]
fn test_constant_in_expression() {
    let result = evaluate_expression("2 * pi").unwrap();
    assert!((result - 2.0 * std::f64::consts::PI).abs() < 0.0001);
}

#[test]
fn test_multiple_constants() {
    let result = evaluate_expression("pi + e").unwrap();
    assert!((result - (std::f64::consts::PI + std::f64::consts::E)).abs() < 0.0001);
}

#[test]
fn test_constant_with_power() {
    let result = evaluate_expression("e ^ 2").unwrap();
    assert!((result - std::f64::consts::E.powi(2)).abs() < 0.0001);
}

#[test]
fn test_sqrt_basic() {
    let result = evaluate_expression("sqrt(16)").unwrap();
    assert_eq!(result, 4.0);
}

#[test]
fn test_sqrt_with_expression() {
    let result = evaluate_expression("sqrt(2 + 2)").unwrap();
    assert_eq!(result, 2.0);
}

#[test]
fn test_sqrt_negative_error() {
    let result = evaluate_expression("sqrt(-1)");
    assert!(result.is_err());
}

#[test]
fn test_sqrt_in_expression() {
    let result = evaluate_expression("2 * sqrt(9)").unwrap();
    assert_eq!(result, 6.0);
}

#[test]
fn test_sin_zero() {
    let result = evaluate_expression("sin(0)").unwrap();
    assert!(result.abs() < 0.0001);
}

#[test]
fn test_sin_pi_over_2() {
    let result = evaluate_expression("sin(pi / 2)").unwrap();
    assert!((result - 1.0).abs() < 0.0001);
}

#[test]
fn test_cos_zero() {
    let result = evaluate_expression("cos(0)").unwrap();
    assert!((result - 1.0).abs() < 0.0001);
}

#[test]
fn test_cos_pi() {
    let result = evaluate_expression("cos(pi)").unwrap();
    assert!((result + 1.0).abs() < 0.0001);
}

#[test]
fn test_tan_zero() {
    let result = evaluate_expression("tan(0)").unwrap();
    assert!(result.abs() < 0.0001);
}

#[test]
fn test_tan_pi_over_4() {
    let result = evaluate_expression("tan(pi / 4)").unwrap();
    assert!((result - 1.0).abs() < 0.0001);
}

#[test]
fn test_log_10() {
    let result = evaluate_expression("log(10)").unwrap();
    assert!((result - 1.0).abs() < 0.0001);
}

#[test]
fn test_log_100() {
    let result = evaluate_expression("log(100)").unwrap();
    assert!((result - 2.0).abs() < 0.0001);
}

#[test]
fn test_log_negative_error() {
    let result = evaluate_expression("log(-1)");
    assert!(result.is_err());
}

#[test]
fn test_log_zero_error() {
    let result = evaluate_expression("log(0)");
    assert!(result.is_err());
}

#[test]
fn test_ln_e() {
    let result = evaluate_expression("ln(e)").unwrap();
    assert!((result - 1.0).abs() < 0.0001);
}

#[test]
fn test_ln_e_squared() {
    let result = evaluate_expression("ln(e ^ 2)").unwrap();
    assert!((result - 2.0).abs() < 0.0001);
}

#[test]
fn test_ln_negative_error() {
    let result = evaluate_expression("ln(-1)");
    assert!(result.is_err());
}

#[test]
fn test_complex_with_functions() {
    let result = evaluate_expression("2 * sqrt(16) + 3").unwrap();
    assert_eq!(result, 11.0);
}

#[test]
fn test_nested_functions() {
    let result = evaluate_expression("sqrt(sqrt(16))").unwrap();
    assert_eq!(result, 2.0);
}

#[test]
fn test_function_with_constant() {
    let result = evaluate_expression("sin(pi)").unwrap();
    assert!(result.abs() < 0.0001);
}

#[test]
fn test_multiple_functions_in_expression() {
    let result = evaluate_expression("sin(0) + cos(0)").unwrap();
    assert!((result - 1.0).abs() < 0.0001);
}

#[test]
fn test_factorial_basic() {
    let result = evaluate_expression("5!").unwrap();
    assert_eq!(result, 120.0);
}

#[test]
fn test_factorial_zero() {
    let result = evaluate_expression("0!").unwrap();
    assert_eq!(result, 1.0);
}

#[test]
fn test_factorial_one() {
    let result = evaluate_expression("1!").unwrap();
    assert_eq!(result, 1.0);
}

#[test]
fn test_factorial_in_expression() {
    let result = evaluate_expression("3! + 2").unwrap();
    assert_eq!(result, 8.0);
}

#[test]
fn test_factorial_with_multiplication() {
    let result = evaluate_expression("2 * 4!").unwrap();
    assert_eq!(result, 48.0);
}

#[test]
fn test_factorial_negative_error() {
    let result = evaluate_expression("(-5)!");
    assert!(result.is_err());
}

#[test]
fn test_factorial_non_integer_error() {
    let result = evaluate_expression("3.5!");
    assert!(result.is_err());
}

#[test]
fn test_factorial_with_parentheses() {
    let result = evaluate_expression("(2 + 3)!").unwrap();
    assert_eq!(result, 120.0);
}

#[test]
fn test_power_with_sqrt() {
    let result = evaluate_expression("sqrt(16) ^ 2").unwrap();
    assert_eq!(result, 16.0);
}

#[test]
fn test_factorial_with_power() {
    let result = evaluate_expression("2 ^ 3!").unwrap();
    assert_eq!(result, 64.0);
}

#[test]
fn test_trig_with_constants() {
    let result = evaluate_expression("sin(pi / 2) + cos(0)").unwrap();
    assert!((result - 2.0).abs() < 0.0001);
}

#[test]
fn test_complex_scientific_expression() {
    let result = evaluate_expression("2 * pi * sqrt(4)").unwrap();
    assert!((result - 4.0 * std::f64::consts::PI).abs() < 0.0001);
}

#[test]
fn test_logarithm_with_power() {
    let result = evaluate_expression("log(10 ^ 3)").unwrap();
    assert!((result - 3.0).abs() < 0.0001);
}

#[test]
fn test_natural_log_with_e() {
    let result = evaluate_expression("ln(e ^ 3)").unwrap();
    assert!((result - 3.0).abs() < 0.0001);
}

#[test]
fn test_nested_scientific_functions() {
    let result = evaluate_expression("sqrt(log(100))").unwrap();
    assert!((result - 2.0_f64.sqrt()).abs() < 0.0001);
}

#[test]
fn test_all_features_combined() {
    let result = evaluate_expression("3! + sqrt(16) * 2 ^ 3 - sin(0) + pi / e").unwrap();
    let expected = 38.0 + std::f64::consts::PI / std::f64::consts::E;
    assert!((result - expected).abs() < 0.0001);
}

#[test]
fn test_precedence_with_advanced_ops() {
    let result = evaluate_expression("2 + 3! * 4").unwrap();
    assert_eq!(result, 26.0);
}

#[test]
fn test_multiple_factorials() {
    let result = evaluate_expression("4! / 2!").unwrap();
    assert_eq!(result, 12.0);
}

// ---- expression edge cases ----

#[test]
fn test_associativity_left() {
    let result = evaluate_expression("10 - 5 - 2").unwrap();
    assert_eq!(result, 3.0);
}

#[test]
fn test_chained_operations() {
    let result = evaluate_expression("2 + 3 + 4 + 5").unwrap();
    assert_eq!(result, 14.0);
}

#[test]
fn test_nested_parentheses() {
    let result = evaluate_expression("((2 + 3) * (4 + 5))").unwrap();
    assert_eq!(result, 45.0);
}

#[test]
fn test_all_operators() {
    let result = evaluate_expression("10 + 5 - 3 * 2 / 2 % 4").unwrap();
    assert_eq!(result, 12.0);
}

#[test]
fn test_negative_result() {
    let result = evaluate_expression("5 - 10").unwrap();
    assert_eq!(result, -5.0);
}

#[test]
fn test_large_numbers() {
    let result = evaluate_expression("1000000 + 2000000").unwrap();
    assert_eq!(result, 3000000.0);
}

#[test]
fn test_very_small_decimals() {
    let result = evaluate_expression("0.001 + 0.002").unwrap();
    assert!((result - 0.003).abs() < 0.0001);
}

#[test]
fn test_multiplication_by_zero() {
    let result = evaluate_expression("100 * 0").unwrap();
    assert_eq!(result, 0.0);
}

#[test]
fn test_division_resulting_in_decimal() {
    let result = evaluate_expression("5 / 2").unwrap();
    assert_eq!(result, 2.5);
}

#[test]
fn test_multiple_nested_parentheses() {
    let result = evaluate_expression("(((2 + 3) * 4) - 5) / 3").unwrap();
    assert_eq!(result, 5.0);
}

#[test]
fn test_expression_starting_with_parentheses() {
    let result = evaluate_expression("(2 + 3) + (4 * 5)").unwrap();
    assert_eq!(result, 25.0);
}

#[test]
fn test_expression_ending_with_parentheses() {
    let result = evaluate_expression("10 - (3 + 2)").unwrap();
    assert_eq!(result, 5.0);
}

#[test]
fn test_modulo_with_decimals() {
    let result = evaluate_expression("5.5 % 2.0").unwrap();
    assert!((result - 1.5).abs() < 0.001);
}

#[test]
fn test_negative_in_parentheses() {
    let result = evaluate_expression("10 + (-5)").unwrap();
    assert_eq!(result, 5.0);
}

#[test]
fn test_multiple_multiplications() {
    let result = evaluate_expression("2 * 3 * 4").unwrap();
    assert_eq!(result, 24.0);
}

#[test]
fn test_multiple_divisions() {
    let result = evaluate_expression("100 / 5 / 2").unwrap();
    assert_eq!(result, 10.0);
}

#[test]
fn test_mixed_precedence_complex() {
    let result = evaluate_expression("2 + 3 * 4 - 5 / 5 + 6").unwrap();
    assert_eq!(result, 19.0);
}

#[test]
fn test_invalid_character_error() {
    let result = evaluate_expression("2 + $3");
    assert!(result.is_err());
}

#[test]
fn test_multiple_decimal_points_error() {
    let result = evaluate_expression("2.5.3 + 1");
    assert!(result.is_err());
}

// ---- further edge cases ----

#[test]
fn test_factorial_overflow_bound() {
    assert!(evaluate_expression("170!").is_ok());
    let result = evaluate_expression("171!");
    assert!(result.is_err());
    assert!(result.unwrap_err().contains("too large"));
}

#[test]
fn test_minus_binds_into_literal_before_power() {
    // The scanner fuses the leading minus into the literal, so this is
    // (-2) ^ 2, not -(2 ^ 2).
    let result = evaluate_expression("-2^2").unwrap();
    assert_eq!(result, 4.0);
}

#[test]
fn test_double_negative_literal() {
    let result = evaluate_expression("2 - -3").unwrap();
    assert_eq!(result, 5.0);
}

#[test]
fn test_negative_factorial_via_literal_fusion() {
    // -5! scans as (-5)! under literal fusion.
    let result = evaluate_expression("-5!");
    assert!(result.is_err());
}

#[test]
fn test_unknown_identifier_stateless() {
    let result = evaluate_expression("foo + 1");
    assert!(result.unwrap_err().contains("Unknown identifier: 'foo'"));
}

#[test]
fn test_missing_open_paren_message() {
    let result = evaluate_expression("2 + 3)");
    assert!(result.unwrap_err().contains("missing '('"));
}

#[test]
fn test_stateless_evaluation_repeatable() {
    let a = evaluate_expression("2 + 3 * 4").unwrap();
    let b = evaluate_expression("2 + 3 * 4").unwrap();
    assert_eq!(a, b);
}
