//! Property-style tests: the pipeline against an independent reference
//! evaluator over generated expressions, and the bit-level numeric
//! predicates against real double-precision behaviour.

use pmatinit::calculator::evaluate_expression_start;
use pmatinit::evaluator::{FunKind, NumRequest, Outcome, PostfixEvaluator};
use pmatinit::numeric::{
    is_infinite_bits, is_integer_bits, is_nan_bits, is_negative_bits, is_zero_bits,
    small_int_of_bits, F64_170_BITS, F64_E_BITS, F64_PI_BITS,
};
use pmatinit::operators::Operator;
use pmatinit::parser::{has_unmatched_parens, is_valid_variable_name, parse_assignment, parse_number_string};
use pmatinit::errors::ErrorKind;
use pmatinit::strutil::{decimal_string, str_contains, str_eq, str_le, trim};

/// Computes one arithmetic request with real double-precision arithmetic.
fn answer(req: NumRequest) -> u64 {
    match req {
        NumRequest::ParseLit(s) => s.parse::<f64>().unwrap().to_bits(),
        NumRequest::Binary(op, l, r) => {
            let l = f64::from_bits(l);
            let r = f64::from_bits(r);
            let v = match op {
                Operator::Add => l + r,
                Operator::Subtract => l - r,
                Operator::Multiply => l * r,
                Operator::Divide => l / r,
                Operator::Modulo => l % r,
                Operator::Power => l.powf(r),
            };
            v.to_bits()
        }
        NumRequest::Unary(k, a) => {
            let a = f64::from_bits(a);
            let v = match k {
                FunKind::Sqrt => a.sqrt(),
                FunKind::Sin => a.sin(),
                FunKind::Cos => a.cos(),
                FunKind::Tan => a.tan(),
                FunKind::Log => a.log10(),
                FunKind::Ln => a.ln(),
            };
            v.to_bits()
        }
        NumRequest::Factorial(n) => {
            let mut result = 1.0f64;
            let mut i = 2u64;
            while i <= n {
                result *= i as f64;
                i += 1;
            }
            result.to_bits()
        }
    }
}

fn run_machine(mut ev: PostfixEvaluator) -> Result<f64, String> {
    loop {
        match ev.next() {
            Outcome::Continue => {}
            Outcome::Need(req) => match ev.resume(answer(req)) {
                Outcome::Continue => {}
                Outcome::Fail(e) => return Err(e.message),
                _ => panic!("unexpected resume outcome"),
            },
            Outcome::Done(bits) => return Ok(f64::from_bits(bits)),
            Outcome::Fail(e) => return Err(e.message),
        }
    }
}

fn evaluate_expression(expression: &str) -> Result<f64, String> {
    let ev = evaluate_expression_start(expression).map_err(|e| e.message)?;
    run_machine(ev)
}

// ---- a hand-written reference evaluator (recursive descent) ----

/// Applies one operator with the calculator's error rules: division and
/// modulo by exact zero fail, and any non-finite result fails.
fn ref_apply(op: char, l: f64, r: f64) -> Result<f64, ()> {
    let v = match op {
        '+' => l + r,
        '-' => l - r,
        '*' => l * r,
        '/' => {
            if r == 0.0 {
                return Err(());
            }
            l / r
        }
        '%' => {
            if r == 0.0 {
                return Err(());
            }
            l % r
        }
        '^' => l.powf(r),
        _ => unreachable!(),
    };
    if v.is_infinite() || v.is_nan() {
        return Err(());
    }
    Ok(v)
}

fn prec_of(op: char) -> u8 {
    match op {
        '+' | '-' => 1,
        '*' | '/' | '%' => 2,
        '^' => 3,
        _ => 0,
    }
}

/// Precedence-climbing parser over whitespace-separated tokens.
fn ref_parse(tokens: &[String], pos: &mut usize, min_prec: u8) -> Result<f64, ()> {
    let mut left: f64 = tokens[*pos].parse().map_err(|_| ())?;
    *pos += 1;
    while *pos < tokens.len() {
        let op = tokens[*pos].chars().next().unwrap();
        let p = prec_of(op);
        if p < min_prec {
            break;
        }
        *pos += 1;
        let next_min = if op == '^' { p } else { p + 1 };
        let right = ref_parse(tokens, pos, next_min)?;
        left = ref_apply(op, left, right)?;
    }
    Ok(left)
}

fn ref_eval(expr: &str) -> Result<f64, ()> {
    let tokens: Vec<String> = expr.split_whitespace().map(|s| s.to_string()).collect();
    let mut pos = 0;
    ref_parse(&tokens, &mut pos, 0)
}

fn lcg(state: &mut u64) -> u64 {
    *state = state
        .wrapping_mul(6364136223846793005)
        .wrapping_add(1442695040888963407);
    *state >> 33
}

#[test]
fn test_pipeline_matches_reference_on_flat_expressions() {
    let mut state: u64 = 0x5eed;
    for _ in 0..300 {
        let n_ops = 1 + (lcg(&mut state) % 4) as usize;
        let ops = ['+', '-', '*', '/', '%', '^'];
        let mut expr = String::new();
        let first = (lcg(&mut state) % 19) as i64 - 9;
        expr.push_str(&first.to_string());
        for _ in 0..n_ops {
            let op = ops[(lcg(&mut state) % 6) as usize];
            let operand: i64 = if op == '^' {
                (lcg(&mut state) % 4) as i64
            } else {
                let mut v = (lcg(&mut state) % 19) as i64 - 9;
                if (op == '/' || op == '%') && v == 0 {
                    v = 3;
                }
                v
            };
            expr.push(' ');
            expr.push(op);
            expr.push(' ');
            expr.push_str(&operand.to_string());
        }
        let got = evaluate_expression(&expr);
        let want = ref_eval(&expr);
        match (got, want) {
            (Ok(g), Ok(w)) => {
                assert_eq!(
                    g.to_bits(),
                    w.to_bits(),
                    "pipeline and reference disagree on {}: {} vs {}",
                    expr,
                    g,
                    w
                );
            }
            (Err(_), Err(())) => {}
            (g, w) => panic!("pipeline and reference disagree on {}: {:?} vs {:?}", expr, g, w),
        }
    }
}

#[test]
fn test_pipeline_matches_reference_on_parenthesized_expressions() {
    // Fully parenthesized random trees: the reference value is computed on
    // the tree directly.
    fn gen(state: &mut u64, depth: u32) -> (String, Result<f64, ()>) {
        if depth == 0 || lcg(state) % 3 == 0 {
            let v = (lcg(state) % 19) as i64 - 9;
            (v.to_string(), Ok(v as f64))
        } else {
            let ops = ['+', '-', '*', '/'];
            let op = ops[(lcg(state) % 4) as usize];
            let (ls, lv) = gen(state, depth - 1);
            let (rs, rv) = gen(state, depth - 1);
            let s = format!("({} {} {})", ls, op, rs);
            let v = match (lv, rv) {
                (Ok(l), Ok(r)) => ref_apply(op, l, r),
                _ => Err(()),
            };
            (s, v)
        }
    }
    let mut state: u64 = 0xacc01ade;
    for _ in 0..200 {
        let (expr, want) = gen(&mut state, 3);
        let got = evaluate_expression(&expr);
        match (got, want) {
            (Ok(g), Ok(w)) => {
                assert_eq!(g.to_bits(), w.to_bits(), "disagree on {}", expr);
            }
            (Err(_), Err(())) => {}
            (g, w) => panic!("disagree on {}: {:?} vs {:?}", expr, g, w),
        }
    }
}

// ---- bit-level predicates against real doubles ----

fn samples() -> Vec<f64> {
    vec![
        0.0,
        -0.0,
        1.0,
        -1.0,
        0.5,
        -0.5,
        2.5,
        169.0,
        170.0,
        170.5,
        171.0,
        -170.0,
        1e300,
        -1e300,
        1e-300,
        9007199254740992.0,
        f64::INFINITY,
        f64::NEG_INFINITY,
        f64::NAN,
        -f64::NAN,
        f64::MIN_POSITIVE,
        5e-324,
    ]
}

#[test]
fn test_bit_predicates_match_double_behaviour() {
    for v in samples() {
        let b = v.to_bits();
        assert_eq!(is_nan_bits(b), v.is_nan(), "is_nan on {}", v);
        assert_eq!(is_infinite_bits(b), v.is_infinite(), "is_infinite on {}", v);
        assert_eq!(is_zero_bits(b), v == 0.0, "is_zero on {}", v);
        assert_eq!(is_negative_bits(b), v < 0.0, "is_negative on {}", v);
        let integral = !v.is_nan() && !v.is_infinite() && v.fract() == 0.0;
        assert_eq!(is_integer_bits(b), integral, "is_integer on {}", v);
    }
}

#[test]
fn test_magnitude_comparison_matches_double_order() {
    // For non-negative, non-NaN doubles the bit patterns order as the values.
    for v in [0.0, 0.5, 1.0, 169.0, 170.0, 170.5, 171.0, 1e300] {
        let exceeds = (v as f64).to_bits() & 0x7FFF_FFFF_FFFF_FFFF > F64_170_BITS;
        assert_eq!(exceeds, v > 170.0, "bound on {}", v);
    }
}

#[test]
fn test_small_int_extraction() {
    for n in [0u64, 1, 2, 5, 9, 10, 99, 100, 169, 170] {
        let bits = (n as f64).to_bits();
        assert_eq!(small_int_of_bits(bits), n);
    }
    assert_eq!(small_int_of_bits((-0.0f64).to_bits()), 0);
}

#[test]
fn test_constant_bit_patterns() {
    assert_eq!(F64_PI_BITS, std::f64::consts::PI.to_bits());
    assert_eq!(F64_E_BITS, std::f64::consts::E.to_bits());
    assert_eq!(F64_170_BITS, 170.0f64.to_bits());
}

// ---- helpers of the scanner ----

#[test]
fn test_decimal_rendering() {
    assert_eq!(decimal_string(0), "0");
    assert_eq!(decimal_string(7), "7");
    assert_eq!(decimal_string(12345), "12345");
    assert_eq!(decimal_string(u64::MAX), u64::MAX.to_string());
}

#[test]
fn test_trim_and_search_helpers() {
    assert_eq!(trim("  2 + 3\t"), "2 + 3");
    assert_eq!(trim("   "), "");
    assert!(str_eq("abc", "abc"));
    assert!(!str_eq("abc", "abd"));
    assert!(str_contains("Division by zero", "zero"));
    assert!(!str_contains("Division by zero", "Zero"));
    assert!(str_le("alpha", "beta"));
    assert!(str_le("abc", "abcd"));
    assert!(!str_le("abd", "abc"));
}

#[test]
fn test_parse_number_string_cases() {
    let (lit, end) = parse_number_string("3.14 + 2", 0).unwrap();
    assert_eq!(lit, "3.14");
    assert_eq!(end, 4);
    assert!(parse_number_string("2.5.3", 0).is_err());
    assert!(parse_number_string(".", 0).is_err());
}

#[test]
fn test_is_valid_variable_name_cases() {
    assert!(is_valid_variable_name("x"));
    assert!(is_valid_variable_name("my_var2"));
    assert!(!is_valid_variable_name("2x"));
    assert!(!is_valid_variable_name(""));
    assert!(!is_valid_variable_name("_x"));
}

#[test]
fn test_unmatched_parens_check() {
    assert!(!has_unmatched_parens("(2 + 3) * 4"));
    assert!(has_unmatched_parens("(2 + 3"));
    assert!(has_unmatched_parens("2 + 3)"));
    assert!(has_unmatched_parens(")("));
    assert!(!has_unmatched_parens(""));
}

#[test]
fn test_parse_assignment_cases() {
    assert_eq!(parse_assignment("2 + 3").unwrap(), None);
    let (name, rhs) = parse_assignment(" x = 1 + 2 ").unwrap().unwrap();
    assert_eq!(name, "x");
    assert_eq!(rhs, "1 + 2");
    assert!(parse_assignment("pi = 5").is_err());
    assert!(parse_assignment("2x = 5").is_err());
    assert!(parse_assignment("x =").is_err());
    assert!(parse_assignment("= 5").is_err());
}

// ---- error kinds ----

#[test]
fn test_error_kinds_are_distinguishable() {
    let k = |expr: &str| evaluate_expression_start(expr).map(|_| ()).unwrap_err().kind;
    assert_eq!(k("2 + $3"), ErrorKind::Syntax);
    assert_eq!(k("foo + 1"), ErrorKind::Syntax);
    assert_eq!(k("2.5.3"), ErrorKind::Syntax);
    assert_eq!(k("(2 + 3"), ErrorKind::ParenthesisMismatch);
    assert_eq!(k("2 + 3)"), ErrorKind::ParenthesisMismatch);

    let run_kind = |expr: &str| -> ErrorKind {
        let mut ev = evaluate_expression_start(expr).unwrap();
        loop {
            match ev.next() {
                Outcome::Continue => {}
                Outcome::Need(req) => {
                    let a = answer(req);
                    match ev.resume(a) {
                        Outcome::Continue => {}
                        Outcome::Fail(e) => return e.kind,
                        _ => panic!("unexpected"),
                    }
                }
                Outcome::Done(_) => panic!("expected failure for {}", expr),
                Outcome::Fail(e) => return e.kind,
            }
        }
    };
    assert_eq!(run_kind("10 / 0"), ErrorKind::Arithmetic);
    assert_eq!(run_kind("5 % 0"), ErrorKind::Arithmetic);
    assert_eq!(run_kind("(-3)!"), ErrorKind::Domain);
    assert_eq!(run_kind("5.5!"), ErrorKind::Domain);
    assert_eq!(run_kind("171!"), ErrorKind::Domain);
    assert_eq!(run_kind("sqrt(-1)"), ErrorKind::Domain);
    assert_eq!(run_kind("log(0)"), ErrorKind::Domain);
    assert_eq!(run_kind("2 +"), ErrorKind::InsufficientOperands);
    assert_eq!(run_kind("2 3"), ErrorKind::InsufficientOperands);
}
