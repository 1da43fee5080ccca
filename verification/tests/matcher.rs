//! Structural matcher behaviour: reflexivity, renaming, and the weak
//! multiset comparison the normalizer's fixpoint detection relies on.

use math_eval::ast::element::{Element, Node, NodeOrExpression, Sign};
use math_eval::ast::equation::Equation;
use math_eval::is_same::{IsSame, IsSameNames};
use math_eval::rational::Rational;

fn var(name: &str) -> Element {
    Element::new(
        Sign::Positive,
        NodeOrExpression::Node(Node::Variable(String::from(name))),
    )
}

fn num(n: i64) -> Element {
    Element::new(
        Sign::Positive,
        NodeOrExpression::Node(Node::Number(Rational::from_integer(n))),
    )
}

#[test]
fn reflexivity_on_a_chain() {
    // sin(x) compared against itself: the variable maps only to itself
    let call = Element::new(
        Sign::Positive,
        NodeOrExpression::Node(Node::Function {
            name: String::from("sin"),
            arguments: vec![var("x")],
        }),
    );
    let mut names = IsSameNames::new();
    assert!(Element::is_same(&call, &call, &mut names));
    assert!(names.check());
    assert_eq!(names.variables.len(), 1);
    assert_eq!(names.variables[0].0, "x");
    assert_eq!(names.variables[0].1, vec![String::from("x")]);
    assert_eq!(names.functions.len(), 1);
    assert_eq!(names.functions[0].0, "sin");
}

#[test]
fn reflexivity_on_a_sum() {
    let e = Element::simple_add(var("a"), var("b"));
    let mut names = IsSameNames::new();
    assert!(Element::is_same(&e, &e, &mut names));
    assert!(names.check());
}

#[test]
fn renaming_across_a_sum() {
    // a + b against x + y matches; the scan pairs sorted entries, and once
    // a pair matched, later entries are only checked against the first
    // sorted entry, so both keys record the name x
    let left = Element::simple_add(var("a"), var("b"));
    let right = Element::simple_add(var("x"), var("y"));
    let mut names = IsSameNames::new();
    assert!(Element::is_same(&left, &right, &mut names));
    assert!(names.check());
    assert_eq!(names.variables.len(), 2);
    assert_eq!(names.variables[0].0, "a");
    assert_eq!(names.variables[0].1, vec![String::from("x")]);
    assert_eq!(names.variables[1].0, "b");
    assert_eq!(names.variables[1].1, vec![String::from("x")]);
}

#[test]
fn repeated_name_against_two_names() {
    // a + a against x + y: the weak multiset comparison reports a match
    // and records only the pairing with the first sorted entry, so the
    // consistency check accepts it; the comparison never sees y
    let left = Element::simple_add(var("a"), var("a"));
    let right = Element::simple_add(var("x"), var("y"));
    let mut names = IsSameNames::new();
    assert!(Element::is_same(&left, &right, &mut names));
    assert!(names.check());
    assert_eq!(names.variables.len(), 1);
    assert_eq!(names.variables[0].0, "a");
    assert_eq!(names.variables[0].1, vec![String::from("x"), String::from("x")]);
}

#[test]
fn inconsistent_evidence_is_rejected() {
    // an equation whose sides are c + x and d + x, compared against
    // itself: the sum scans record x against c on one side and against d
    // on the other, so the consistency check refuses the evidence even
    // though every shape matches
    let eq = Equation::new(vec![
        Element::simple_add(var("c"), var("x")),
        Element::simple_add(var("d"), var("x")),
    ]);
    let mut names = IsSameNames::new();
    let same = Equation::is_same(&eq, &eq, &mut names);
    assert!(same);
    assert!(!names.check());
}

#[test]
fn numbers_compare_by_value() {
    let half = Element::new(
        Sign::Positive,
        NodeOrExpression::Node(Node::Number(Rational { num: 1, den: 2 })),
    );
    let two_quarters = Element::new(
        Sign::Positive,
        NodeOrExpression::Node(Node::Number(Rational { num: 2, den: 4 })),
    );
    let mut names = IsSameNames::new();
    assert!(Element::is_same(&half, &two_quarters, &mut names));
    let mut names2 = IsSameNames::new();
    assert!(!Element::is_same(&half, &num(2), &mut names2));
}

#[test]
fn shapes_must_agree() {
    let mut names = IsSameNames::new();
    assert!(!Element::is_same(
        &Element::simple_add(var("a"), var("b")),
        &var("a"),
        &mut names
    ));
    let mut names2 = IsSameNames::new();
    assert!(!Element::is_same(&var("a").simple_neg(), &var("a"), &mut names2));
}

#[test]
fn equations_compare_side_by_side() {
    let a = Equation::new(vec![var("x"), num(2)]);
    let b = Equation::new(vec![var("y"), num(2)]);
    let mut names = IsSameNames::new();
    assert!(Equation::is_same(&a, &b, &mut names));
    assert!(names.check());
    let c = Equation::new(vec![var("x")]);
    let mut names2 = IsSameNames::new();
    assert!(!Equation::is_same(&a, &c, &mut names2));
}
