use parsemaths::token::Token;
use parsemaths::tokenizer::Tokenizer;

#[test]
fn test_positive_integer() {
    let mut tokenizer = Tokenizer::new("34");
    assert_eq!(tokenizer.next().unwrap(), Token::Num(vec!['3', '4']))
}

#[test]
fn test_decimal_number() {
    let mut tokenizer = Tokenizer::new("34.5");
    assert_eq!(tokenizer.next().unwrap(), Token::Num(vec!['3', '4', '.', '5']))
}

fn literal_value(t: Token) -> f64 {
    match t {
        Token::Num(lit) => {
            let s: String = lit.iter().collect();
            s.parse::<f64>().unwrap()
        }
        _ => panic!("expected a numeric token"),
    }
}

#[test]
fn numeric_token_value_matches_float_parse() {
    let mut tokenizer = Tokenizer::new("34");
    assert_eq!(literal_value(tokenizer.next().unwrap()), 34.0);
    let mut tokenizer = Tokenizer::new("34.5");
    assert_eq!(literal_value(tokenizer.next().unwrap()), 34.5);
    let mut tokenizer = Tokenizer::new("0.25");
    assert_eq!(literal_value(tokenizer.next().unwrap()), 0.25);
}

#[test]
fn literal_is_one_token_then_eof() {
    let mut tokenizer = Tokenizer::new("34.5");
    assert_eq!(tokenizer.next().unwrap(), Token::Num(vec!['3', '4', '.', '5']));
    assert_eq!(tokenizer.next().unwrap(), Token::Eof);
    assert_eq!(tokenizer.next().unwrap(), Token::Eof);
}

#[test]
fn single_character_tokens() {
    let mut tokenizer = Tokenizer::new("+-*/^()");
    assert_eq!(tokenizer.next().unwrap(), Token::Add);
    assert_eq!(tokenizer.next().unwrap(), Token::Subtract);
    assert_eq!(tokenizer.next().unwrap(), Token::Multiply);
    assert_eq!(tokenizer.next().unwrap(), Token::Divide);
    assert_eq!(tokenizer.next().unwrap(), Token::Caret);
    assert_eq!(tokenizer.next().unwrap(), Token::LeftParen);
    assert_eq!(tokenizer.next().unwrap(), Token::RightParen);
    assert_eq!(tokenizer.next().unwrap(), Token::Eof);
}

#[test]
fn unrecognized_character_yields_no_token() {
    let mut tokenizer = Tokenizer::new("@");
    assert!(tokenizer.next().is_none());
}

#[test]
fn digit_followed_by_open_paren_aborts_the_number() {
    let mut tokenizer = Tokenizer::new("2(3)");
    assert!(tokenizer.next().is_none());
}

#[test]
fn second_decimal_point_ends_the_literal() {
    let mut tokenizer = Tokenizer::new("1.2.3");
    assert_eq!(tokenizer.next().unwrap(), Token::Num(vec!['1', '.', '2']));
    assert!(tokenizer.next().is_none());
}

#[test]
fn trailing_decimal_point_stays_in_the_literal() {
    let mut tokenizer = Tokenizer::new("7.");
    assert_eq!(tokenizer.next().unwrap(), Token::Num(vec!['7', '.']));
    assert_eq!(tokenizer.next().unwrap(), Token::Eof);
}

#[test]
fn whitespace_is_not_a_token() {
    let mut tokenizer = Tokenizer::new(" ");
    assert!(tokenizer.next().is_none());
}

#[test]
fn unary_minus_is_not_part_of_the_number() {
    let mut tokenizer = Tokenizer::new("-7");
    assert_eq!(tokenizer.next().unwrap(), Token::Subtract);
    assert_eq!(tokenizer.next().unwrap(), Token::Num(vec!['7']));
}
