use mathexpr::ast::{Node, NodeKind, AST};
use mathexpr::parser::{ParseError, Parser};
use mathexpr::token::{Literal, Operator, Token};
use mathexpr::tokenizer::Tokenizer;

fn number(literal: &Literal) -> f64 {
    literal.as_str().parse::<f64>().unwrap()
}

fn apply(op: Operator, a: f64, b: f64) -> f64 {
    match op {
        Operator::Add => a + b,
        Operator::Sub => a - b,
        Operator::Mul => a * b,
        Operator::Div => a / b,
    }
}

fn build(expr: &str) -> Result<AST, ParseError> {
    let mut parser = Parser::new(expr)?;
    parser.parse()
}

fn value(expr: &str) -> Option<f64> {
    build(expr).unwrap().eval(&number, &apply)
}

/// The tree in prefix form, such as `Add(3, Div(4, 2))`.
fn show(node: &Node) -> String {
    match (&node.left, &node.right) {
        (Some(l), Some(r)) => format!("{}({}, {})", node.val.name(), show(l), show(r)),
        (None, None) => match &node.val {
            Token::Num(literal) => literal.as_str().to_string(),
            other => other.name(),
        },
        _ => panic!("a node with one child"),
    }
}

fn shape(expr: &str) -> String {
    show(&build(expr).unwrap().root)
}

#[test]
fn test_get_node_kind() {
    let expr = "3+4/2";
    let mut tokenizer = Tokenizer::new(&expr);

    assert_eq!(
        NodeKind::Operand,
        Parser::get_kind(&tokenizer.next().unwrap())
    );
    assert_eq!(NodeKind::BinOp, Parser::get_kind(&tokenizer.next().unwrap()));
    assert_eq!(
        NodeKind::Operand,
        Parser::get_kind(&tokenizer.next().unwrap())
    );
    assert_eq!(NodeKind::BinOp, Parser::get_kind(&tokenizer.next().unwrap()));
}

#[test]
fn kind_of_every_token() {
    assert_eq!(Parser::get_kind(&Token::Add), NodeKind::BinOp);
    assert_eq!(Parser::get_kind(&Token::Sub), NodeKind::BinOp);
    assert_eq!(Parser::get_kind(&Token::Mul), NodeKind::BinOp);
    assert_eq!(Parser::get_kind(&Token::Div), NodeKind::BinOp);
    assert_eq!(Parser::get_kind(&Token::Exp), NodeKind::Invalid);
    assert_eq!(Parser::get_kind(&Token::OpenParen), NodeKind::Invalid);
    assert_eq!(Parser::get_kind(&Token::CloseParen), NodeKind::Invalid);
    assert_eq!(Parser::get_kind(&Token::Invalid), NodeKind::Invalid);
    assert_eq!(
        Parser::get_kind(&Token::Num(Literal::new("1").unwrap())),
        NodeKind::Operand
    );
}

#[test]
fn builds_and_evaluates_a_flat_expression() {
    assert_eq!(shape("3+4/2"), "Add(3, Div(4, 2))");
    assert_eq!(value("3+4/2"), Some(5.0));
}

#[test]
fn built_tree_has_the_documented_nodes() {
    let ast = build("3+4/2").unwrap();
    let root = &ast.root;
    assert_eq!(root.kind, NodeKind::BinOp);
    assert_eq!(root.val, Token::Add);
    let left = root.left.as_ref().unwrap();
    assert_eq!(left.kind, NodeKind::Operand);
    assert_eq!(left.val, Token::Num(Literal::new("3").unwrap()));
    assert!(left.left.is_none() && left.right.is_none());
    let right = root.right.as_ref().unwrap();
    assert_eq!(right.kind, NodeKind::BinOp);
    assert_eq!(right.val, Token::Div);
    let four = right.left.as_ref().unwrap();
    assert_eq!(four.kind, NodeKind::Operand);
    assert_eq!(four.val, Token::Num(Literal::new("4").unwrap()));
    let two = right.right.as_ref().unwrap();
    assert_eq!(two.kind, NodeKind::Operand);
    assert_eq!(two.val, Token::Num(Literal::new("2").unwrap()));
    assert!(two.left.is_none() && two.right.is_none());
}

#[test]
fn leading_operator_is_an_invalid_start() {
    match build("+4") {
        Err(ParseError::InvalidStart(message)) => assert_eq!(message, "Invalid Start"),
        other => panic!("{:?}", other),
    }
}

#[test]
fn trailing_operator_is_incomplete() {
    match build("3+") {
        Err(ParseError::Incomplete(message)) => assert_eq!(message, "Expression too short"),
        other => panic!("{:?}", other),
    }
    assert!(matches!(build("3+4-"), Err(ParseError::Incomplete(_))));
}

#[test]
fn lone_number_is_incomplete() {
    match build("3") {
        Err(ParseError::Incomplete(message)) => assert_eq!(message, "Expression too short"),
        other => panic!("{:?}", other),
    }
}

#[test]
fn exponent_is_refused() {
    match build("3^2") {
        Err(ParseError::InvalidOperator(message)) => assert_eq!(message, "Invalid Operator"),
        other => panic!("{:?}", other),
    }
}

#[test]
fn parenthesis_is_an_invalid_start() {
    match build("(3+4)") {
        Err(ParseError::InvalidStart(message)) => assert_eq!(message, "Invalid Start"),
        other => panic!("{:?}", other),
    }
}

#[test]
fn empty_input_is_an_invalid_start() {
    for expr in ["", "    "] {
        match Parser::new(expr) {
            Err(ParseError::InvalidStart(message)) => {
                assert_eq!(message, "Illegal character detected. Unable to parse.")
            }
            Err(other) => panic!("{:?}", other),
            Ok(_) => panic!("built a parser for {:?}", expr),
        }
    }
}

#[test]
fn invalid_first_character_is_an_invalid_start() {
    match Parser::new("#3+4") {
        Err(ParseError::InvalidStart(message)) => {
            assert_eq!(message, "Illegal character detected. Unable to parse.")
        }
        Err(other) => panic!("{:?}", other),
        Ok(_) => panic!("built a parser"),
    }
}

#[test]
fn second_token_must_be_an_operator() {
    for expr in ["3 4", "3(", "3)", "3#", "3^"] {
        match build(expr) {
            Err(ParseError::InvalidOperator(message)) => assert_eq!(message, "Invalid Operator"),
            other => panic!("{}: {:?}", expr, other),
        }
    }
}

#[test]
fn later_token_out_of_place_is_an_invalid_operator() {
    let cases = [
        ("3+4 5", "Invalid token kind Num(5)"),
        ("3+4^2", "Invalid token kind Exp"),
        ("3+4)", "Invalid token kind CloseParen"),
        ("3+4#", "Invalid token kind Invalid"),
        ("3+*4", "Invalid token kind Mul"),
        ("3+(4)", "Invalid token kind OpenParen"),
        ("3+4-#", "Invalid token kind Invalid"),
    ];
    for (expr, expected) in cases {
        match build(expr) {
            Err(ParseError::InvalidOperator(message)) => assert_eq!(message, expected),
            other => panic!("{}: {:?}", expr, other),
        }
    }
}

#[test]
fn tree_nests_to_the_right() {
    assert_eq!(shape("1+2"), "Add(1, 2)");
    assert_eq!(shape("3-4+2"), "Sub(3, Add(4, 2))");
    assert_eq!(shape("8/4/2*3"), "Div(8, Div(4, Mul(2, 3)))");
    assert_eq!(shape(" 1.5 * 2 - 0.5 "), "Mul(1.5, Sub(2, 0.5))");
}

#[test]
fn evaluates_from_the_right() {
    assert_eq!(value("3-4+2"), Some(3.0 - (4.0 + 2.0)));
    assert_eq!(value("3-4+2"), Some(-3.0));
    assert_eq!(value("8/4/2"), Some(4.0));
    assert_eq!(value("2*3+4"), Some(14.0));
    assert_eq!(value("10-2-3-4"), Some(10.0 - (2.0 - (3.0 - 4.0))));
}

#[test]
fn evaluates_each_operator() {
    assert_eq!(value("3+4"), Some(7.0));
    assert_eq!(value("3-4"), Some(-1.0));
    assert_eq!(value("3*4"), Some(12.0));
    assert_eq!(value("3/4"), Some(0.75));
    assert_eq!(value("1.5+2.25"), Some(3.75));
}

#[test]
fn division_by_zero_is_no_error() {
    assert_eq!(value("1/0"), Some(f64::INFINITY));
    assert!(value("0/0").unwrap().is_nan());
}

#[test]
fn evaluation_goes_left_subtree_first() {
    let seen = std::cell::RefCell::new(Vec::new());
    let number = |literal: &Literal| {
        seen.borrow_mut().push(literal.as_str().to_string());
        0u8
    };
    let apply = |op: Operator, _: u8, _: u8| {
        seen.borrow_mut().push(format!("{:?}", op));
        0u8
    };
    assert_eq!(build("1+2*3").unwrap().eval(&number, &apply), Some(0));
    assert_eq!(*seen.borrow(), vec!["1", "2", "3", "Mul", "Add"]);
}

#[test]
fn a_builder_builds_once() {
    let mut parser = Parser::new("1+2").unwrap();
    assert!(parser.parse().is_ok());
    match parser.parse() {
        Err(ParseError::InvalidStart(message)) => assert_eq!(message, "Invalid Start"),
        other => panic!("{:?}", other),
    }
}

#[test]
fn long_chain_builds_and_evaluates() {
    let mut expr = String::from("1");
    for _ in 0..200 {
        expr.push_str("+1");
    }
    assert_eq!(value(&expr), Some(201.0));
}
