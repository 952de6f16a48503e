use giaa::decimal::Dec;
use giaa::eval::{CompileError, EvalError, ExprResult, ExprVar, Parser};
use giaa::expr::{Expr, ExprVarKey};
use giaa::parse::parse;

const PRECISION: u32 = 2;

fn num(m: i128, s: u32) -> Expr {
    Expr::Number(Dec::new(m, s).unwrap())
}

fn nvar(n: &str) -> Expr {
    Expr::NumberVariable(String::from(n))
}

fn bvar(n: &str) -> Expr {
    Expr::BooleanVariable(String::from(n))
}

fn names(v: &[&str]) -> Vec<String> {
    v.iter().map(|s| String::from(*s)).collect()
}

#[test]
fn test_parse_number() {
    let input = "1.0+2.0==3.0";
    let expr = parse(input).unwrap();
    assert_eq!(
        expr,
        Expr::Equal(
            Box::new(Expr::Plus(Box::new(num(10, 1)), Box::new(num(20, 1)))),
            Box::new(num(30, 1))
        )
    )
}

#[test]
fn test_parse_number_variable() {
    let input = "a+b*c>10";
    let expr = parse(input).unwrap();
    assert_eq!(
        expr,
        Expr::GreaterThan(
            Box::new(Expr::Plus(
                Box::new(nvar("a")),
                Box::new(Expr::Times(Box::new(nvar("b")), Box::new(nvar("c"))))
            )),
            Box::new(num(100, 1))
        )
    )
}

#[test]
fn test_parse_boolean_variable() {
    let input = "a&&b||c&&!d";
    let expr = parse(input).unwrap();
    assert_eq!(
        expr,
        Expr::Or(
            Box::new(Expr::And(Box::new(bvar("a")), Box::new(bvar("b")))),
            Box::new(Expr::And(
                Box::new(bvar("c")),
                Box::new(Expr::Not(Box::new(bvar("d"))))
            ))
        )
    )
}

#[test]
fn parse_single_equals_sign() {
    let expr = parse("1.0+2.0=3.0").unwrap();
    assert_eq!(
        expr,
        Expr::Equal(
            Box::new(Expr::Plus(Box::new(num(10, 1)), Box::new(num(20, 1)))),
            Box::new(num(30, 1))
        )
    )
}

#[test]
fn parse_multi_word_names_collapse_spaces() {
    let expr = parse("主词条:攻击力  and   more > 3").unwrap();
    assert_eq!(
        expr,
        Expr::GreaterThan(Box::new(nvar("主词条:攻击力 and more")), Box::new(num(3, 0)))
    );
}

#[test]
fn parse_negative_literal_and_parentheses() {
    let expr = parse("(a - -2) * 3 <= 4").unwrap();
    assert_eq!(
        expr,
        Expr::LessThanEqual(
            Box::new(Expr::Times(
                Box::new(Expr::Minus(Box::new(nvar("a")), Box::new(num(-2, 0)))),
                Box::new(num(3, 0))
            )),
            Box::new(num(4, 0))
        )
    );
}

#[test]
fn parse_boolean_literals_and_comparison_of_booleans() {
    let expr = parse("true != x").unwrap();
    assert_eq!(
        expr,
        Expr::NotEqual(Box::new(nvar("true")), Box::new(nvar("x")))
    );
    let expr = parse("!(false || x)").unwrap();
    assert_eq!(
        expr,
        Expr::Not(Box::new(Expr::Or(
            Box::new(Expr::Boolean(false)),
            Box::new(bvar("x"))
        )))
    );
}

#[test]
fn parse_syntax_error_reports_fragment() {
    let err = parse("a > 3 )").unwrap_err();
    assert_eq!(err.position, 6);
    assert_eq!(err.fragment, ")");
    assert!(parse("").is_err());
    assert!(parse("a >").is_err());
    assert!(parse("a & b").is_err());
}

#[test]
#[should_panic]
fn test_parse_var_not_supported() {
    let input = "var>10";
    let var_key = ExprVarKey::default();
    let parser = Parser::new(PRECISION, var_key).unwrap();
    let _ = parser.parse(input).unwrap();
}

#[test]
fn undeclared_variable_fails_compilation() {
    let parser = Parser::new(PRECISION, ExprVarKey::new(names(&["b"]), names(&["n"]))).unwrap();
    match parser.parse("var>10") {
        Err(CompileError::UnknownNumberVariable(n)) => assert_eq!(n, "var"),
        other => panic!("unexpected {:?}", other),
    }
    match parser.parse("b && !c") {
        Err(CompileError::UnknownBooleanVariable(n)) => assert_eq!(n, "c"),
        other => panic!("unexpected {:?}", other),
    }
    assert!(parser.parse("b && n > 1").is_ok());
}

#[test]
fn test_exec_number() {
    let input = "1.0+2.0==3.0";
    let var_key = ExprVarKey::default();
    let parser = Parser::new(PRECISION, var_key).unwrap();
    let expr = parser.parse(input).unwrap();
    let expr_var = ExprVar::default();
    let output = parser.exec(&expr, &expr_var).unwrap();
    assert_eq!(output, ExprResult::Boolean(true))
}

#[test]
fn test_exec_number_variable() {
    let input = "a+b*c+d>10";
    let var_key = ExprVarKey::new(vec![], names(&["a", "b", "c", "d"]));
    let parser = Parser::new(PRECISION, var_key).unwrap();
    let expr = parser.parse(input).unwrap();
    let mut expr_var = ExprVar::default();
    expr_var.insert_number(String::from("a"), Dec::from_int(5));
    expr_var.insert_number(String::from("b"), Dec::from_int(2));
    expr_var.insert_number(String::from("c"), Dec::from_int(3));
    expr_var.insert_number(String::from("d"), Dec::from_int(4));
    let output = parser.exec(&expr, &expr_var).unwrap();
    assert_eq!(output, ExprResult::Boolean(true))
}

#[test]
fn test_exec_boolean_variable() {
    let input = "a&&b||c&&!d";
    let var_key = ExprVarKey::new(names(&["a", "b", "c", "d"]), vec![]);
    let parser = Parser::new(PRECISION, var_key).unwrap();
    let expr = parser.parse(input).unwrap();
    let mut expr_var = ExprVar::default();
    expr_var.insert_boolean(String::from("a"), true);
    expr_var.insert_boolean(String::from("b"), false);
    expr_var.insert_boolean(String::from("c"), true);
    expr_var.insert_boolean(String::from("d"), false);
    let output = parser.exec(&expr, &expr_var).unwrap();
    assert_eq!(output, ExprResult::Boolean(true))
}

#[test]
fn test_precision() {
    let input = "10 / 3 == 3.33";
    let var_key = ExprVarKey::default();
    let parser = Parser::new(PRECISION, var_key).unwrap();
    let expr = parser.parse(input).unwrap();
    let expr_var = ExprVar::default();
    let output = parser.exec(&expr, &expr_var).unwrap();
    assert_eq!(output, ExprResult::Boolean(true));

    let input = "10 / 3 == 3.334";
    let expr = parser.parse(input).unwrap();
    let output = parser.exec(&expr, &expr_var).unwrap();
    assert_eq!(output, ExprResult::Boolean(true));
}

fn eval_text(text: &str, precision: u32) -> Result<ExprResult, EvalError> {
    let parser = Parser::new(precision, ExprVarKey::default()).unwrap();
    let expr = parser.parse(text).unwrap();
    parser.exec(&expr, &ExprVar::default())
}

#[test]
fn arithmetic_goes_through_the_decimal_library() {
    assert_eq!(eval_text("1.5 + 2.25 == 3.75", 4).unwrap(), ExprResult::Boolean(true));
    assert_eq!(eval_text("5 - 7.5 == -2.5", 4).unwrap(), ExprResult::Boolean(true));
    assert_eq!(eval_text("1.5 * 4 == 6", 4).unwrap(), ExprResult::Boolean(true));
    assert_eq!(eval_text("7 / 2 == 3.5", 4).unwrap(), ExprResult::Boolean(true));
    assert_eq!(eval_text("7 / 2 == 3", 4).unwrap(), ExprResult::Boolean(false));
    assert_eq!(eval_text("2 < 3 && 3 >= 3 && 3 <= 2.999", 2).unwrap(), ExprResult::Boolean(true));
    assert_eq!(eval_text("2 > 3 || 1 != 1.00", 2).unwrap(), ExprResult::Boolean(false));
}

#[test]
fn division_by_zero_is_an_error() {
    match eval_text("1 / 0 > 0", 2) {
        Err(EvalError::Overflow(_)) => {}
        other => panic!("unexpected {:?}", other),
    }
}

#[test]
fn type_errors_name_the_operator() {
    let parser = Parser::new(2, ExprVarKey::default()).unwrap();
    let vars = ExprVar::default();
    let sum = Expr::Plus(Box::new(Expr::Boolean(true)), Box::new(num(1, 0)));
    match parser.exec(&sum, &vars) {
        Err(EvalError::Operand(_)) => {}
        other => panic!("unexpected {:?}", other),
    }
    let less = Expr::LessThan(Box::new(Expr::Boolean(true)), Box::new(Expr::Boolean(false)));
    match parser.exec(&less, &vars) {
        Err(EvalError::Operand(_)) => {}
        other => panic!("unexpected {:?}", other),
    }
    let same = Expr::Equal(Box::new(Expr::Boolean(true)), Box::new(Expr::Boolean(true)));
    assert_eq!(parser.exec(&same, &vars).unwrap(), ExprResult::Boolean(true));
}

#[test]
fn missing_binding_is_an_error() {
    let parser = Parser::new(2, ExprVarKey::new(names(&["x"]), vec![])).unwrap();
    let expr = parser.parse("x").unwrap();
    match parser.exec(&expr, &ExprVar::default()) {
        Err(EvalError::MissingBoolean(n)) => assert_eq!(n, "x"),
        other => panic!("unexpected {:?}", other),
    }
}

#[test]
fn later_binding_overrides_earlier() {
    let parser = Parser::new(2, ExprVarKey::new(names(&["x"]), vec![])).unwrap();
    let expr = parser.parse("x").unwrap();
    let mut vars = ExprVar::default();
    vars.insert_boolean(String::from("x"), true);
    vars.insert_boolean(String::from("x"), false);
    assert_eq!(parser.exec(&expr, &vars).unwrap(), ExprResult::Boolean(false));
}

#[test]
fn rounding_is_half_to_even() {
    let a = Dec::new(2345, 3).unwrap().round_dp(2);
    assert_eq!((a.mantissa, a.scale), (234, 2));
    let b = Dec::new(2355, 3).unwrap().round_dp(2);
    assert_eq!((b.mantissa, b.scale), (236, 2));
    let c = Dec::new(-2346, 3).unwrap().round_dp(2);
    assert_eq!((c.mantissa, c.scale), (-235, 2));
    let d = Dec::new(25, 1).unwrap().round_dp(3);
    assert_eq!((d.mantissa, d.scale), (25, 1));
}

#[test]
fn decimal_compare_by_value() {
    let a = Dec::new(10, 1).unwrap();
    let b = Dec::new(100, 2).unwrap();
    assert_eq!(a.compare(&b), std::cmp::Ordering::Equal);
    assert!(a == b);
    assert_eq!(Dec::from_int(2).compare(&a), std::cmp::Ordering::Greater);
    assert!(Dec::new(1, 29).is_none());
}

#[test]
fn var_keys_are_collected_left_to_right() {
    let expr = parse("a && x > y || !b").unwrap();
    let keys = expr.get_var_keys();
    assert_eq!(keys.boolean_keys, names(&["a", "b"]));
    assert_eq!(keys.number_keys, names(&["x", "y"]));
}

#[test]
fn expressions_clone_node_by_node() {
    let expr = parse("a + 2 > 3 && !(b)").unwrap();
    assert_eq!(expr.clone(), expr);
}
