use minitools::expression::Expr;
use minitools::numeral::Numeral;
use minitools::parser::{parse_chars, parse_expression, ParseError};
use minitools::render::Piece;

fn value(n: &Numeral) -> f64 {
    let mut v: f64 = n.literal().parse().unwrap();
    for _ in 0..n.lowered() {
        v -= 1.0;
    }
    v
}

fn show(e: &Expr) -> String {
    let mut out = String::new();
    for piece in e.render() {
        match piece {
            Piece::Text(t) => out.push_str(&t),
            Piece::Number(n) => out.push_str(&format!("{}", value(&n))),
        }
    }
    out
}

fn num(text: &str) -> Numeral {
    Numeral::new(text).unwrap()
}

fn var(name: &str) -> Expr {
    Expr::Var(name.to_string())
}

fn derived(text: &str, variable: &str) -> String {
    show(&parse_expression(text).unwrap().differentiate(variable))
}

#[test]
fn constant_differentiates_to_zero() {
    let e = Expr::Const(num("5.0"));
    assert_eq!(show(&e.differentiate("x")), "0");
}

#[test]
fn variable_differentiates_to_one_or_zero() {
    assert_eq!(show(&var("x").differentiate("x")), "1");
    assert_eq!(show(&var("y").differentiate("x")), "0");
}

#[test]
fn sum_rule() {
    assert_eq!(derived("(x + 3)", "x"), "(1 + 0)");
}

#[test]
fn difference_rule() {
    assert_eq!(derived("(x - y)", "y"), "(0 - 1)");
}

#[test]
fn product_rule() {
    assert_eq!(derived("(x * x)", "x"), "((1 * x) + (x * 1))");
}

#[test]
fn power_rule() {
    assert_eq!(derived("(x^3)", "x"), "(3 * (x^2))");
}

#[test]
fn power_rule_ignores_the_chain_rule() {
    assert_eq!(derived("(x * x)^2", "x"), "(2 * ((x * x)^1))");
}

#[test]
fn power_rule_subtracts_in_floating_point() {
    assert_eq!(derived("x^1.1", "x"), "(1.1 * (x^0.10000000000000009))");
    assert_eq!(derived("x^0.5", "x"), "(0.5 * (x^-0.5))");
}

#[test]
fn quotient_rule() {
    assert_eq!(derived("(x / 2)", "x"), "(((1 * 2) - (x * 0)) / (2^2))");
}

#[test]
fn second_derivative_lowers_the_exponent_twice() {
    let e = parse_expression("x^3").unwrap();
    let twice = e.differentiate("x").differentiate("x");
    assert_eq!(show(&twice), "((0 * (x^2)) + (3 * (2 * (x^1))))");
}

#[test]
fn differentiate_leaves_its_input_alone() {
    let e = parse_expression("(x * y) / z").unwrap();
    let copy = e.clone();
    let _ = e.differentiate("x");
    assert_eq!(e, copy);
}

#[test]
fn non_constant_exponent_is_an_error() {
    assert_eq!(parse_expression("(x^y)"), Err(ParseError::NonConstantExponent));
    assert_eq!(parse_expression("x^(2+1)"), Err(ParseError::NonConstantExponent));
}

#[test]
fn malformed_text_is_an_error() {
    assert_eq!(parse_expression("3x"), Err(ParseError::InvalidFormat));
    assert_eq!(parse_expression("(x"), Err(ParseError::InvalidFormat));
    assert_eq!(parse_expression("x)"), Err(ParseError::InvalidFormat));
    assert_eq!(parse_expression("("), Err(ParseError::InvalidFormat));
    assert_eq!(parse_expression("a b"), Err(ParseError::InvalidFormat));
    assert_eq!(parse_expression("x_1"), Err(ParseError::InvalidFormat));
}

#[test]
fn error_on_the_left_comes_first() {
    assert_eq!(parse_expression("3x ^ y"), Err(ParseError::InvalidFormat));
    assert_eq!(parse_expression("x ^ 3y"), Err(ParseError::InvalidFormat));
    assert_eq!(parse_expression("a^b + 3x"), Err(ParseError::InvalidFormat));
    assert_eq!(parse_expression("a^b + x"), Err(ParseError::NonConstantExponent));
}

#[test]
fn first_operator_wins() {
    let e = parse_expression("2+3*4").unwrap();
    let expected = Expr::Add(
        Box::new(Expr::Const(num("2"))),
        Box::new(Expr::Mul(Box::new(Expr::Const(num("3"))), Box::new(Expr::Const(num("4"))))),
    );
    assert_eq!(e, expected);
    let e = parse_expression("2*3+4").unwrap();
    let expected = Expr::Mul(
        Box::new(Expr::Const(num("2"))),
        Box::new(Expr::Add(Box::new(Expr::Const(num("3"))), Box::new(Expr::Const(num("4"))))),
    );
    assert_eq!(e, expected);
}

#[test]
fn chained_operators_nest_to_the_right() {
    let e = parse_expression("a+b+c").unwrap();
    let expected = Expr::Add(
        Box::new(var("a")),
        Box::new(Expr::Add(Box::new(var("b")), Box::new(var("c")))),
    );
    assert_eq!(e, expected);
    assert_eq!(show(&e), "(a + (b + c))");
    let e = parse_expression("a-b-c").unwrap();
    assert_eq!(show(&e), "(a - (b - c))");
}

#[test]
fn single_operations_survive_rendering_and_parsing() {
    for text in ["(a + b)", "(a - b)", "(a * b)", "(a / b)", "(a^2)", "(3 + x)"] {
        let e = parse_expression(text).unwrap();
        assert_eq!(show(&e), text);
        assert_eq!(parse_expression(&show(&e)).unwrap(), e);
    }
}

#[test]
fn two_bracketed_sides_do_not_survive() {
    let e = Expr::Add(
        Box::new(Expr::Add(Box::new(var("a")), Box::new(var("b")))),
        Box::new(Expr::Add(Box::new(var("c")), Box::new(var("d")))),
    );
    assert_eq!(show(&e), "((a + b) + (c + d))");
    assert_eq!(parse_expression("((a + b) + (c + d))"), Err(ParseError::InvalidFormat));
}

#[test]
fn operators_inside_brackets_do_not_split() {
    let e = parse_expression("(a+b)*c").unwrap();
    let expected = Expr::Mul(
        Box::new(Expr::Add(Box::new(var("a")), Box::new(var("b")))),
        Box::new(var("c")),
    );
    assert_eq!(e, expected);
    let e = parse_expression("x*(a+b)").unwrap();
    assert_eq!(show(&e), "(x * (a + b))");
    let e = parse_expression("(a+b)*(c+d)*e").unwrap();
    assert_eq!(show(&e), "((a + b) * ((c + d) * e))");
}

#[test]
fn outer_brackets_are_taken_by_their_looks() {
    // The first and the last character are brackets, so both are taken off,
    // though they do not belong together.
    assert_eq!(parse_expression("(a+b)*(c+d)"), Err(ParseError::InvalidFormat));
    assert_eq!(parse_expression("(a)+(b)"), Err(ParseError::InvalidFormat));
    assert_eq!(
        parse_expression("(a+b)*(c+d)"),
        parse_expression("a+b)*(c+d")
    );
}

#[test]
fn brackets_and_blanks_are_stripped() {
    assert_eq!(parse_expression("  ( ( x ) )  ").unwrap(), var("x"));
    assert_eq!(parse_expression(" 7 ").unwrap(), Expr::Const(num("7")));
    assert_eq!(parse_expression("\t(x+1)\n").unwrap(), parse_expression("x+1").unwrap());
}

#[test]
fn empty_text_is_the_empty_name() {
    assert_eq!(parse_expression("").unwrap(), var(""));
    assert_eq!(parse_expression("()").unwrap(), var(""));
    assert_eq!(parse_expression("*").unwrap(), Expr::Mul(Box::new(var("")), Box::new(var(""))));
}

#[test]
fn numbers_come_before_names_and_operators() {
    assert_eq!(parse_expression("inf").unwrap(), Expr::Const(num("inf")));
    assert_eq!(parse_expression("NaN").unwrap(), Expr::Const(num("NaN")));
    assert_eq!(parse_expression("-3").unwrap(), Expr::Const(num("-3")));
    assert_eq!(parse_expression("1e-5").unwrap(), Expr::Const(num("1e-5")));
    assert_eq!(
        parse_expression("1-5").unwrap(),
        Expr::Sub(Box::new(Expr::Const(num("1"))), Box::new(Expr::Const(num("5"))))
    );
    assert_eq!(
        parse_expression("-x").unwrap(),
        Expr::Sub(Box::new(var("")), Box::new(var("x")))
    );
}

#[test]
fn numbers_print_as_floats_do() {
    assert_eq!(show(&parse_expression("3.0").unwrap()), "3");
    assert_eq!(show(&parse_expression("1e2").unwrap()), "100");
    assert_eq!(show(&parse_expression(".5").unwrap()), "0.5");
    assert_eq!(show(&parse_expression("+7.").unwrap()), "7");
    assert_eq!(show(&parse_expression("-inf").unwrap()), "-inf");
}

#[test]
fn names_may_be_letters_of_any_script() {
    assert_eq!(parse_expression("é").unwrap(), var("é"));
    assert_eq!(parse_expression("αβ + 京").unwrap(), Expr::Add(Box::new(var("αβ")), Box::new(var("京"))));
    assert_eq!(parse_expression("€"), Err(ParseError::InvalidFormat));
    assert_eq!(parse_expression("x💝"), Err(ParseError::InvalidFormat));
}

#[test]
fn white_space_of_any_script_is_trimmed() {
    assert_eq!(parse_expression("\u{a0}x\u{2003}").unwrap(), var("x"));
    assert_eq!(parse_expression("\u{3000}1\u{85}+\u{2028}y").unwrap(), parse_expression("1+y").unwrap());
    assert_eq!(parse_expression("\u{200b}x"), Err(ParseError::InvalidFormat));
}

#[test]
fn a_split_falls_on_characters_not_bytes() {
    let e = parse_expression("é+1").unwrap();
    assert_eq!(e, Expr::Add(Box::new(var("é")), Box::new(Expr::Const(num("1")))));
}

#[test]
fn parse_chars_agrees_with_parse_expression() {
    let text = "(x^2) / (y - 1)";
    let chars: Vec<char> = text.chars().collect();
    assert_eq!(parse_chars(&chars), parse_expression(text));
}

#[test]
fn rendering_is_made_of_pieces() {
    let e = parse_expression("x^2").unwrap();
    let expected = vec![
        Piece::Text("(".to_string()),
        Piece::Text("x".to_string()),
        Piece::Text("^".to_string()),
        Piece::Number(num("2")),
        Piece::Text(")".to_string()),
    ];
    assert_eq!(e.render(), expected);
    let e = parse_expression("a / b").unwrap();
    let expected = vec![
        Piece::Text("(".to_string()),
        Piece::Text("a".to_string()),
        Piece::Text(" / ".to_string()),
        Piece::Text("b".to_string()),
        Piece::Text(")".to_string()),
    ];
    assert_eq!(e.render(), expected);
}

#[test]
fn numerals_keep_what_was_written() {
    let n = num("2.50");
    assert_eq!(n.literal(), "2.50");
    assert_eq!(n.lowered(), 0);
    let m = n.less_one().less_one();
    assert_eq!(m.literal(), "2.50");
    assert_eq!(m.lowered(), 2);
    assert_eq!(value(&m), 0.5);
    assert_eq!(Numeral::zero().literal(), "0");
    assert_eq!(Numeral::one().literal(), "1");
    assert_eq!(Numeral::two().literal(), "2");
    assert_eq!(Numeral::new("two"), None);
    assert_eq!(Numeral::new(""), None);
}

#[test]
fn parse_errors_in_words() {
    assert_eq!(ParseError::InvalidFormat.message(), "Invalid expression format");
    assert_eq!(ParseError::NonConstantExponent.message(), "Exponent must be a constant");
    assert_eq!(parse_expression("(x^y)").unwrap_err().message(), "Exponent must be a constant");
}

#[test]
fn lowering_counts_each_step() {
    let mut n = num("3");
    for _ in 0..5 {
        n = n.less_one();
    }
    assert_eq!(n.lowered(), 5);
    assert_eq!(value(&n), -2.0);
}

#[test]
fn clones_are_equal() {
    let e = parse_expression("(x^3) + (2 * x) / y").unwrap();
    assert_eq!(show(&e), "((x^3) + ((2 * x) / y))");
    assert_eq!(e.clone(), e);
    let n = num("1e3").less_one();
    assert_eq!(n.clone(), n);
}

#[test]
fn sum_of_a_power_and_a_product() {
    assert_eq!(derived("(x^3) + 2 * x", "x"), "((3 * (x^2)) + ((0 * x) + (2 * 1)))");
    // With brackets on both sides and around the whole, the outer two pairs
    // come off and what is left is no expression.
    assert_eq!(parse_expression("((x^3) + (2 * x))"), Err(ParseError::InvalidFormat));
}
