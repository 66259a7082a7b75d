use mathexpr::token::{Literal, Token};
use mathexpr::tokenizer::Tokenizer;

/// A token with its number read as a float, for comparison.
#[derive(Debug, PartialEq, Clone, Copy)]
enum Tok {
    Add,
    Mul,
    Div,
    Sub,
    Exp,
    OpenParen,
    CloseParen,
    Num(f64),
    Invalid,
}

fn read(token: Option<Token>) -> Option<Tok> {
    token.map(|t| match t {
        Token::Add => Tok::Add,
        Token::Mul => Tok::Mul,
        Token::Div => Tok::Div,
        Token::Sub => Tok::Sub,
        Token::Exp => Tok::Exp,
        Token::OpenParen => Tok::OpenParen,
        Token::CloseParen => Tok::CloseParen,
        Token::Num(literal) => Tok::Num(literal.as_str().parse::<f64>().unwrap()),
        Token::Invalid => Tok::Invalid,
    })
}

fn all(expr: &str) -> Vec<Tok> {
    let mut tkn = Tokenizer::new(expr);
    let mut out = Vec::new();
    while let Some(t) = read(tkn.next()) {
        out.push(t);
    }
    out
}

fn texts(expr: &str) -> Vec<String> {
    let mut tkn = Tokenizer::new(expr);
    let mut out = Vec::new();
    while let Some(t) = tkn.next() {
        out.push(t.name());
    }
    out
}

#[test]
fn test_tokenizer() {
    let mut expr = "3+4/2";
    let mut tkn = Tokenizer::new(&expr);
    assert_eq!(Some(Tok::Num(3_f64)), read(tkn.next()));
    assert_eq!(Some(Tok::Add), read(tkn.next()));
    assert_eq!(Some(Tok::Num(4_f64)), read(tkn.next()));
    assert_eq!(Some(Tok::Div), read(tkn.next()));
    assert_eq!(Some(Tok::Num(2_f64)), read(tkn.next()));

    expr = "3.001     +     4";
    tkn = Tokenizer::new(&expr);
    assert_eq!(Some(Tok::Num(3.001_f64)), read(tkn.next()));
    assert_eq!(Some(Tok::Add), read(tkn.next()));
    assert_eq!(Some(Tok::Num(4_f64)), read(tkn.next()));
    assert_eq!(None, read(tkn.next()));

    expr = "3.2123.233 / ()";
    tkn = Tokenizer::new(&expr);
    assert_eq!(Some(Tok::Num(3.2123_f64)), read(tkn.next()));
    assert_eq!(Some(Tok::Invalid), read(tkn.next()));
    assert_eq!(Some(Tok::Num(233_f64)), read(tkn.next()));
    assert_eq!(Some(Tok::Div), read(tkn.next()));
    assert_eq!(Some(Tok::OpenParen), read(tkn.next()));
    assert_eq!(Some(Tok::CloseParen), read(tkn.next()));
    assert_eq!(None, read(tkn.next()));

    expr = "(69.96)";
    tkn = Tokenizer::new(&expr);
    assert_eq!(Some(Tok::OpenParen), read(tkn.next()));
    assert_eq!(Some(Tok::Num(69.96_f64)), read(tkn.next()));
    assert_eq!(Some(Tok::CloseParen), read(tkn.next()));
    assert_eq!(None, read(tkn.next()));
}

#[test]
fn lexes_a_flat_expression() {
    assert_eq!(all("3+4/2"), vec![Tok::Num(3.0), Tok::Add, Tok::Num(4.0), Tok::Div, Tok::Num(2.0)]);
}

#[test]
fn skips_spaces_between_tokens() {
    assert_eq!(all("3.001   +   4"), vec![Tok::Num(3.001), Tok::Add, Tok::Num(4.0)]);
    assert_eq!(all("  7  "), vec![Tok::Num(7.0)]);
}

#[test]
fn lexes_parentheses() {
    assert_eq!(all("(69.96)"), vec![Tok::OpenParen, Tok::Num(69.96), Tok::CloseParen]);
}

#[test]
fn goes_on_after_an_unrecognized_character() {
    assert_eq!(all("3#4"), vec![Tok::Num(3.0), Tok::Invalid, Tok::Num(4.0)]);
}

#[test]
fn lexes_every_symbol() {
    assert_eq!(all("+-*/^()"), vec![Tok::Add, Tok::Sub, Tok::Mul, Tok::Div, Tok::Exp, Tok::OpenParen, Tok::CloseParen]);
}

#[test]
fn empty_and_blank_inputs_have_no_token() {
    assert_eq!(all(""), vec![]);
    assert_eq!(all("     "), vec![]);
    let mut tkn = Tokenizer::new("   ");
    assert_eq!(None, tkn.next());
    assert_eq!(None, tkn.next());
}

#[test]
fn exhausted_scanner_stays_exhausted() {
    let mut tkn = Tokenizer::new("1");
    assert!(tkn.next().is_some());
    assert_eq!(None, tkn.next());
    assert_eq!(None, tkn.next());
}

#[test]
fn keeps_the_literal_as_written() {
    assert_eq!(texts("3.001"), vec!["Num(3.001)"]);
    assert_eq!(texts("007"), vec!["Num(007)"]);
    assert_eq!(texts("12."), vec!["Num(12.)"]);
    assert_eq!(texts("1 2"), vec!["Num(1)", "Num(2)"]);
}

#[test]
fn second_point_ends_the_number() {
    assert_eq!(texts("3.2123.233"), vec!["Num(3.2123)", "Invalid", "Num(233)"]);
    assert_eq!(texts("1..2"), vec!["Num(1.)", "Invalid", "Num(2)"]);
}

#[test]
fn a_point_cannot_start_a_number() {
    assert_eq!(texts(".5"), vec!["Invalid", "Num(5)"]);
}

#[test]
fn other_whitespace_and_letters_are_invalid() {
    assert_eq!(all("1\t2"), vec![Tok::Num(1.0), Tok::Invalid, Tok::Num(2.0)]);
    assert_eq!(all("a1"), vec![Tok::Invalid, Tok::Num(1.0)]);
    assert_eq!(all("é"), vec![Tok::Invalid]);
}

#[test]
fn a_number_ends_at_a_symbol_or_a_space() {
    assert_eq!(all("12+3"), vec![Tok::Num(12.0), Tok::Add, Tok::Num(3.0)]);
    assert_eq!(all("1.5 2.5"), vec![Tok::Num(1.5), Tok::Num(2.5)]);
    assert_eq!(all("4)"), vec![Tok::Num(4.0), Tok::CloseParen]);
}

#[test]
fn token_names() {
    assert_eq!(Token::Add.name(), "Add");
    assert_eq!(Token::Mul.name(), "Mul");
    assert_eq!(Token::Div.name(), "Div");
    assert_eq!(Token::Sub.name(), "Sub");
    assert_eq!(Token::Exp.name(), "Exp");
    assert_eq!(Token::OpenParen.name(), "OpenParen");
    assert_eq!(Token::CloseParen.name(), "CloseParen");
    assert_eq!(Token::Invalid.name(), "Invalid");
    assert_eq!(Token::Num(Literal::new("2.50").unwrap()).name(), "Num(2.50)");
}

#[test]
fn literal_accepts_numerals_only() {
    assert_eq!(Literal::new("3").unwrap().as_str(), "3");
    assert_eq!(Literal::new("3.14").unwrap().as_str(), "3.14");
    assert_eq!(Literal::new("3.").unwrap().as_str(), "3.");
    assert!(Literal::new("").is_none());
    assert!(Literal::new(".5").is_none());
    assert!(Literal::new("1.2.3").is_none());
    assert!(Literal::new("1..").is_none());
    assert!(Literal::new("12a").is_none());
    assert!(Literal::new("-1").is_none());
    assert!(Literal::new("1 ").is_none());
}

#[test]
fn clones_are_equal() {
    let literal = Literal::new("42.5").unwrap();
    assert_eq!(literal.clone(), literal);
    let token = Token::Num(literal);
    assert_eq!(token.clone(), token);
    assert_eq!(Token::Exp.clone(), Token::Exp);
}
