use parsemaths::ast::Node;
use parsemaths::parser::parse_expression;
use parsemaths::parser::ParseError;
use parsemaths::parser::Parser;

fn eval(node: &Node) -> f64 {
    match node {
        Node::Number(lit) => {
            let s: String = lit.iter().collect();
            s.parse::<f64>().unwrap()
        }
        Node::Negative(e) => -eval(e),
        Node::Add(l, r) => eval(l) + eval(r),
        Node::Subtract(l, r) => eval(l) - eval(r),
        Node::Multiply(l, r) => eval(l) * eval(r),
        Node::Divide(l, r) => eval(l) / eval(r),
        Node::Caret(l, r) => eval(l).powf(eval(r)),
    }
}

fn evaluate(expr: &str) -> Result<f64, ParseError> {
    let node = parse_expression(expr)?;
    Ok(eval(&node))
}

#[test]
fn multiplication_binds_tighter_than_addition() {
    assert_eq!(evaluate("2+3*4").unwrap(), 14.0);
}

#[test]
fn parentheses_override_precedence() {
    assert_eq!(evaluate("(2+3)*4").unwrap(), 20.0);
}

#[test]
fn exponentiation_is_right_associative() {
    assert_eq!(evaluate("2^3^2").unwrap(), 512.0);
}

#[test]
fn unary_negation_binds_tighter_than_exponentiation() {
    assert_eq!(evaluate("-2^2").unwrap(), 4.0);
}

#[test]
fn implicit_multiplication_of_adjacent_groups() {
    assert_eq!(evaluate("(2+3)(4-1)").unwrap(), 15.0);
}

#[test]
fn implicit_multiplication_chains() {
    assert_eq!(evaluate("(2)(3)(4)").unwrap(), 24.0);
}

#[test]
fn division_by_zero_yields_infinity() {
    assert_eq!(evaluate("1/0").unwrap(), f64::INFINITY);
}

#[test]
fn missing_operand_is_an_error() {
    assert!(matches!(evaluate("2+"), Err(ParseError::UnableToParse(_))));
}

#[test]
fn unclosed_parenthesis_is_an_error() {
    assert!(matches!(evaluate("(2+3"), Err(ParseError::InvalidOperator(_))));
}

#[test]
fn doubled_operator_is_an_error() {
    assert!(matches!(evaluate("2++3"), Err(ParseError::UnableToParse(_))));
}

#[test]
fn unrecognized_character_is_an_error() {
    assert!(matches!(evaluate("@"), Err(ParseError::InvalidOperator(_))));
}

#[test]
fn number_directly_before_group_is_an_error() {
    assert!(evaluate("2(3)").is_err());
}

#[test]
fn evaluating_twice_is_bit_identical() {
    let first = evaluate("2*3+(4-5)+2^3/4").unwrap();
    let second = evaluate("2*3+(4-5)+2^3/4").unwrap();
    assert_eq!(first.to_bits(), second.to_bits());
    assert_eq!(first, 7.0);
}

#[test]
fn decimals_evaluate_exactly() {
    assert_eq!(evaluate("3.5+1").unwrap(), 4.5);
    assert_eq!(evaluate("-2.5").unwrap(), -2.5);
}

#[test]
fn negation_of_group_and_double_negation() {
    assert_eq!(evaluate("-(2+3)").unwrap(), -5.0);
    assert_eq!(evaluate("--2").unwrap(), 2.0);
}

#[test]
fn fractional_and_negative_exponents() {
    assert_eq!(evaluate("4^0.5").unwrap(), 2.0);
    assert_eq!(evaluate("2^-1").unwrap(), 0.5);
}

#[test]
fn subtraction_chains_left_to_right() {
    assert_eq!(evaluate("10-3-2").unwrap(), 5.0);
    assert_eq!(evaluate("16/4/2").unwrap(), 2.0);
}

#[test]
fn parser_reports_text_of_lexical_error() {
    let err = evaluate("@").unwrap_err();
    assert_eq!(err.describe(), "Error in evaluation Invalid character");
}

#[test]
fn mismatched_parenthesis_message_names_the_expectation() {
    let err = evaluate("(2+3").unwrap_err();
    assert_eq!(err.describe(), "Error in evaluation Expected ), got end of input");
}

#[test]
fn parser_can_be_driven_by_hand() {
    let mut parser = Parser::new("1+2").unwrap();
    let node = parser.parse().unwrap();
    assert_eq!(eval(&node), 3.0);
}
