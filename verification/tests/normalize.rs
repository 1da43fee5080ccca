//! Normalization behaviour: identities, zero collapse, fixpoints.

use math_eval::ast::element::{Element, Node, NodeOrExpression, Sign};
use math_eval::ast::equation::Equation;
use math_eval::is_same::{IsSame, IsSameNames};
use math_eval::rational::Rational;
use math_eval::solve::{normalize_equation, simplify_equation};

fn var(name: &str) -> Element {
    Element::new(
        Sign::Positive,
        NodeOrExpression::Node(Node::Variable(String::from(name))),
    )
}

fn num(n: i64) -> Element {
    Element::new(
        Sign::Positive,
        NodeOrExpression::Node(Node::Number(Rational::from_integer(n))),
    )
}

fn is_number_node(e: &Element, value: i64) -> bool {
    match &e.node_or_expression {
        NodeOrExpression::Node(Node::Number(r)) => {
            r.eq_value(&Rational::from_integer(value)) && e.sign == Sign::Positive
        }
        _ => false,
    }
}

fn normalized(side: Element) -> Equation {
    let mut eq = Equation::new(vec![side]);
    normalize_equation(&mut eq).expect("normalization reaches a fixpoint");
    eq
}

fn same_equations(a: &Equation, b: &Equation) -> bool {
    let mut names = IsSameNames::new();
    let same = Equation::is_same(a, b, &mut names);
    same && names.check()
}

#[test]
fn zero_collapse_subtraction() {
    // x - x reduces to the number zero
    let side = Element::simple_sub(var("x"), var("x"));
    let mut eq = Equation::new(vec![side]);
    eq.flatten();
    let _ = simplify_equation(&mut eq);
    assert_eq!(eq.equation_sides.len(), 1);
    assert!(is_number_node(&eq.equation_sides[0], 0));
}

#[test]
fn add_zero_identity() {
    let left = normalized(Element::simple_add(var("x"), num(0)));
    let right = normalized(var("x"));
    assert!(same_equations(&left, &right));
    assert!(
        matches!(&left.equation_sides[0].node_or_expression, NodeOrExpression::Node(Node::Variable(n)) if n == "x")
    );
}

#[test]
fn mul_one_identity() {
    let left = normalized(Element::simple_mul(var("x"), num(1)));
    let right = normalized(var("x"));
    assert!(same_equations(&left, &right));
}

#[test]
fn div_one_identity() {
    let left = normalized(Element::simple_div(var("x"), num(1)));
    let right = normalized(var("x"));
    assert!(same_equations(&left, &right));
}

#[test]
fn numeric_identities_for_numbers() {
    // the identities hold for numeric operands as well
    let left = normalized(Element::simple_add(num(5), num(0)));
    let right = normalized(num(5));
    assert!(same_equations(&left, &right));
    let left2 = normalized(Element::simple_mul(num(5), num(1)));
    assert!(same_equations(&left2, &right));
}

#[test]
fn normalization_is_idempotent_on_examples() {
    // normalizing a normalized equation changes nothing the matcher can see
    for side in [
        Element::simple_add(var("x"), num(3)),
        Element::simple_mul(num(2), var("y")),
        Element::simple_sub(var("a"), var("a")),
        Element::simple_div(var("x"), num(1)),
    ] {
        let mut eq = Equation::new(vec![side]);
        normalize_equation(&mut eq).expect("first normalization converges");
        let mut again = eq.duplicate();
        normalize_equation(&mut again).expect("second normalization converges");
        assert!(same_equations(&eq, &again));
    }
}

#[test]
fn coefficients_merge_within_a_product() {
    // 2 * 3 * x rationalizes to a single coefficient 6
    let side = Element::simple_mul(Element::simple_mul(num(2), num(3)), var("x"));
    let mut eq = Equation::new(vec![side]);
    eq.flatten();
    let _ = simplify_equation(&mut eq);
    match &eq.equation_sides[0].node_or_expression {
        NodeOrExpression::Expression(x) => {
            assert_eq!(x.products.len(), 1);
            let p = &x.products[0];
            assert_eq!(p.numerator.len(), 2);
            assert!(is_number_node(&p.numerator[0], 6));
            assert!(
                matches!(&p.numerator[1].node_or_expression, NodeOrExpression::Node(Node::Variable(n)) if n == "x")
            );
        }
        _ => panic!("expected an expression side"),
    }
}

#[test]
fn like_terms_combine() {
    // 2x + 3x combines to 5x
    let side = Element::simple_add(
        Element::simple_mul(num(2), var("x")),
        Element::simple_mul(num(3), var("x")),
    );
    let mut eq = Equation::new(vec![side]);
    eq.flatten();
    let _ = simplify_equation(&mut eq);
    match &eq.equation_sides[0].node_or_expression {
        NodeOrExpression::Expression(x) => {
            assert_eq!(x.products.len(), 1);
            let p = &x.products[0];
            assert!(is_number_node(&p.numerator[0], 5));
        }
        _ => panic!("expected an expression side"),
    }
}

#[test]
fn denominator_of_one_is_dropped() {
    // a product with denominator exactly 1 loses the denominator
    let side = Element::simple_div(var("x"), num(1));
    let mut eq = Equation::new(vec![side]);
    eq.flatten();
    let _ = simplify_equation(&mut eq);
    match &eq.equation_sides[0].node_or_expression {
        NodeOrExpression::Expression(x) => {
            assert_eq!(x.products.len(), 1);
            assert!(x.products[0].denominator.is_empty());
        }
        _ => panic!("expected an expression side"),
    }
}
