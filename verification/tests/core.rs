//! Basic data-model behaviour: rationals, signs, rendering, analysis,
//! traversal.

use math_eval::ast::element::{Element, Node, NodeOrExpression, Sign};
use math_eval::rational::Rational;
use math_eval::render::{render_elem_exec, render_i64};
use math_eval::tokenizer::{Operation, ParseError, Token, TokenizedString};

fn var(name: &str) -> Element {
    Element::new(
        Sign::Positive,
        NodeOrExpression::Node(Node::Variable(String::from(name))),
    )
}

fn num(n: i64) -> Element {
    Element::new(
        Sign::Positive,
        NodeOrExpression::Node(Node::Number(Rational::from_integer(n))),
    )
}

#[test]
fn rational_exact_arithmetic() {
    let half = Rational { num: 1, den: 2 };
    let third = Rational { num: 1, den: 3 };
    let product = half.checked_mul(&third).unwrap();
    assert_eq!(product.numerator(), 1);
    assert_eq!(product.denominator(), 6);
    let sum = half.checked_add(&third).unwrap();
    assert_eq!(sum.numerator(), 5);
    assert_eq!(sum.denominator(), 6);
    let two_quarters = Rational { num: 2, den: 4 };
    assert!(half.eq_value(&two_quarters));
    assert!(!half.eq_value(&third));
    let inv = third.checked_invert().unwrap();
    assert_eq!(inv.numerator(), 3);
    assert_eq!(inv.denominator(), 1);
}

#[test]
fn rational_overflow_is_reported() {
    let big = Rational { num: i64::MAX, den: 1 };
    assert!(big.checked_mul(&big).is_none());
    assert!(big.checked_add(&big).is_none());
    let min = Rational { num: i64::MIN, den: 1 };
    assert!(min.checked_neg().is_none());
}

#[test]
fn sign_multiplication_group() {
    assert_eq!(Sign::Positive.mul(Sign::Positive), Sign::Positive);
    assert_eq!(Sign::Positive.mul(Sign::Negative), Sign::Negative);
    assert_eq!(Sign::Negative.mul(Sign::Positive), Sign::Negative);
    assert_eq!(Sign::Negative.mul(Sign::Negative), Sign::Positive);
    assert_eq!(Sign::Negative.flip().flip(), Sign::Negative);
    assert_eq!(Sign::Positive.flip().flip(), Sign::Positive);
}

#[test]
fn render_numbers() {
    assert_eq!(render_i64(0), "0");
    assert_eq!(render_i64(2), "2");
    assert_eq!(render_i64(-17), "-17");
    assert_eq!(render_i64(1203), "1203");
    let three_halves = Element::new(
        Sign::Positive,
        NodeOrExpression::Node(Node::Number(Rational { num: 3, den: 2 })),
    );
    assert_eq!(render_elem_exec(&three_halves), "3/2");
    assert_eq!(render_elem_exec(&num(7)), "7");
    assert_eq!(render_elem_exec(&var("x").simple_neg()), "-x");
}

#[test]
fn render_function_call() {
    let call = Element::new(
        Sign::Positive,
        NodeOrExpression::Node(Node::Function {
            name: String::from("sin"),
            arguments: vec![var("x")],
        }),
    );
    assert_eq!(render_elem_exec(&call), "sin(x)");
}

#[test]
fn analyze_collects_names() {
    let mut e = Element::simple_add(
        var("a"),
        Element::new(
            Sign::Positive,
            NodeOrExpression::Node(Node::Function {
                name: String::from("f"),
                arguments: vec![var("b")],
            }),
        ),
    );
    e.analyze();
    let cache = e.cache.as_ref().expect("analysis fills the cache");
    let mut vars: Vec<String> = cache.variables.clone();
    vars.sort();
    assert_eq!(vars, vec![String::from("a"), String::from("b")]);
    assert_eq!(cache.functions, vec![String::from("f")]);
    assert_eq!(cache.is_number, Some(false));
    assert!(!e.is_number());
}

#[test]
fn analyze_pure_number() {
    let mut e = Element::simple_mul(num(2), num(3));
    e.analyze();
    assert!(e.is_number());
    let cache = e.cache.as_ref().unwrap();
    assert!(cache.variables.is_empty());
    assert_eq!(cache.is_number, Some(true));
}

#[test]
fn traversal_visits_children_in_order() {
    let e = Element::simple_mul(var("a"), var("b"));
    let pre = e.apply_to_every_element(true, None);
    // the expression itself, then its two factors in order
    assert_eq!(pre.len(), 3);
    assert!(matches!(
        pre[0].node_or_expression,
        NodeOrExpression::Expression(_)
    ));
    assert!(
        matches!(&pre[1].node_or_expression, NodeOrExpression::Node(Node::Variable(n)) if n == "a")
    );
    assert!(
        matches!(&pre[2].node_or_expression, NodeOrExpression::Node(Node::Variable(n)) if n == "b")
    );
    let post = e.apply_to_every_element(false, None);
    assert_eq!(post.len(), 3);
    assert!(matches!(
        post[2].node_or_expression,
        NodeOrExpression::Expression(_)
    ));
}

#[test]
fn traversal_depth_limit_still_visits_the_node() {
    let e = Element::simple_mul(var("a"), var("b"));
    // at the limit the node itself is visited, children are not
    let only_root = e.apply_to_every_element(true, Some(0));
    assert_eq!(only_root.len(), 1);
    let one_level = e.apply_to_every_element(true, Some(1));
    assert_eq!(one_level.len(), 3);
}

#[test]
fn tokens_round_trip() {
    let tokens = vec![
        Token::Number(Rational::from_integer(4)),
        Token::Identifier {
            name: String::from("x"),
            could_be_unit: false,
        },
    ];
    let ts = TokenizedString::new_from_tokens(tokens);
    assert_eq!(ts.tokens.len(), 2);
    assert!(matches!(ts.tokens[1], Token::Identifier { .. }));
}

#[test]
fn tokenizer_reads_an_equation() {
    let ts = TokenizedString::try_new("sin(x + 1) = 2").expect("well-formed input");
    let t = &ts.tokens;
    assert_eq!(t.len(), 7);
    assert!(matches!(&t[0], Token::Function(n) if n == "sin"));
    assert!(matches!(&t[1], Token::Identifier { name, .. } if name == "x"));
    assert!(matches!(t[2], Token::Binary(Operation::Add)));
    assert!(matches!(&t[3], Token::Number(r) if r.numerator() == 1 && r.denominator() == 1));
    assert!(matches!(t[4], Token::RightParenthesis));
    assert!(matches!(t[5], Token::Binary(Operation::Equal)));
    assert!(matches!(&t[6], Token::Number(r) if r.numerator() == 2));
}

#[test]
fn tokenizer_inserts_implicit_multiplication() {
    let ts = TokenizedString::try_new("2x").expect("well-formed input");
    let t = &ts.tokens;
    assert_eq!(t.len(), 3);
    assert!(matches!(&t[0], Token::Number(r) if r.numerator() == 2));
    assert!(matches!(t[1], Token::Binary(Operation::Multiply)));
    assert!(matches!(&t[2], Token::Identifier { name, .. } if name == "x"));
}

#[test]
fn tokenizer_reads_parenthesized_groups() {
    let ts = TokenizedString::try_new("(1/2)/(3/4)").expect("well-formed input");
    assert_eq!(ts.tokens.len(), 11);
    // adjacent groups multiply implicitly
    let ts2 = TokenizedString::try_new("(1)(2)").expect("well-formed input");
    assert!(matches!(ts2.tokens[3], Token::Binary(Operation::Multiply)));
}

#[test]
fn tokenizer_rejects_bad_input() {
    assert!(matches!(
        TokenizedString::try_new("2 +"),
        Err(ParseError::MissingArgument)
    ));
    assert!(matches!(
        TokenizedString::try_new("(2"),
        Err(ParseError::MissingRightParenthesis(1))
    ));
    assert!(matches!(
        TokenizedString::try_new("2)"),
        Err(ParseError::UnexpectedToken(1))
    ));
    assert!(matches!(
        TokenizedString::try_new("1, 2"),
        Err(ParseError::UnexpectedToken(1))
    ));
    assert!(matches!(
        TokenizedString::try_new("2 ?"),
        Err(ParseError::UnexpectedToken(2))
    ));
    assert!(matches!(
        TokenizedString::try_new(""),
        Err(ParseError::MissingArgument)
    ));
}

#[test]
fn tokenizer_rejects_oversized_numbers() {
    assert!(matches!(
        TokenizedString::try_new("99999999999999999999"),
        Err(ParseError::UnexpectedToken(0))
    ));
    let ok = TokenizedString::try_new("9223372036854775807").expect("the largest constant fits");
    assert!(matches!(&ok.tokens[0], Token::Number(r) if r.numerator() == i64::MAX));
}

#[test]
fn duplicate_is_deep() {
    let e = Element::simple_div(var("x"), num(2));
    let d = e.duplicate();
    assert!(e.eq_tree(&d));
    assert!(d.eq_tree(&e));
}
