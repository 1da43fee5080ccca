//! The inverse-transform engine and the solve-graph driver.

use math_eval::ast::element::{Element, Node, NodeOrExpression, Sign};
use math_eval::ast::equation::{Equation, EquationSide, NoContextEquation};
use math_eval::context::{App, Context, CreateEquationError, TokensToEquationError};
use math_eval::rational::Rational;
use math_eval::solve::{apply_inverse_checked, SolveError, Strategy};
use math_eval::tokenizer::{Operation, ParseError};

fn var(name: &str) -> Element {
    Element::new(
        Sign::Positive,
        NodeOrExpression::Node(Node::Variable(String::from(name))),
    )
}

fn num(n: i64) -> Element {
    Element::new(
        Sign::Positive,
        NodeOrExpression::Node(Node::Number(Rational::from_integer(n))),
    )
}

fn call(name: &str, argument: Element) -> Element {
    Element::new(
        Sign::Positive,
        NodeOrExpression::Node(Node::Function {
            name: String::from(name),
            arguments: vec![argument],
        }),
    )
}

fn is_number_node(e: &Element, value: i64) -> bool {
    match &e.node_or_expression {
        NodeOrExpression::Node(Node::Number(r)) => r.eq_value(&Rational::from_integer(value)),
        _ => false,
    }
}

fn is_variable(e: &Element, name: &str) -> bool {
    matches!(&e.node_or_expression, NodeOrExpression::Node(Node::Variable(n)) if n == name)
}

#[test]
fn inverse_function_round_trip() {
    // sin(x) = 2 becomes x = arcsin(2), with no constraints
    let mut eq = Equation::new(vec![call("sin", var("x")), num(2)]);
    eq.analyze();
    let constraints = apply_inverse_checked(&mut eq).expect("supported shape");
    assert!(constraints.is_empty());
    assert_eq!(eq.equation_sides.len(), 2);
    assert!(is_variable(&eq.equation_sides[0], "x"));
    match &eq.equation_sides[1].node_or_expression {
        NodeOrExpression::Node(Node::Function { name, arguments }) => {
            assert_eq!(name, "arcsin");
            assert_eq!(arguments.len(), 1);
            assert!(is_number_node(&arguments[0], 2));
        }
        _ => panic!("expected the paired inverse applied to the other side"),
    }
}

#[test]
fn unknown_function_gets_declared_inverse() {
    // f(x) = 2 becomes x = f(2) under a power of minus one
    let mut eq = Equation::new(vec![call("f", var("x")), num(2)]);
    eq.analyze();
    let constraints = apply_inverse_checked(&mut eq).expect("supported shape");
    assert!(constraints.is_empty());
    assert!(is_variable(&eq.equation_sides[0], "x"));
    match &eq.equation_sides[1].node_or_expression {
        NodeOrExpression::Node(Node::Power { base, power }) => {
            assert!(is_number_node(power, -1));
            match &base.node_or_expression {
                NodeOrExpression::Node(Node::Function { name, .. }) => assert_eq!(name, "f"),
                _ => panic!("expected the function name reapplied"),
            }
        }
        _ => panic!("expected a power of minus one"),
    }
}

#[test]
fn linear_isolation_with_constraint() {
    // 2*x = 6 becomes x = 6/2 (pre-simplification) under the constraint 2 != 0
    let mut eq = Equation::new(vec![Element::simple_mul(num(2), var("x")), num(6)]);
    eq.flatten();
    eq.analyze();
    let constraints = apply_inverse_checked(&mut eq).expect("supported shape");
    assert_eq!(constraints.len(), 1);
    assert_eq!(constraints[0], "2 != 0");
    match &eq.equation_sides[0].node_or_expression {
        NodeOrExpression::Expression(x) => {
            assert_eq!(x.products.len(), 1);
            assert_eq!(x.products[0].numerator.len(), 1);
            assert!(is_variable(&x.products[0].numerator[0], "x"));
            assert!(x.products[0].denominator.is_empty());
        }
        _ => panic!("expected the variable factor kept"),
    }
    match &eq.equation_sides[1].node_or_expression {
        NodeOrExpression::Expression(x) => {
            assert_eq!(x.products.len(), 1);
            let p = &x.products[0];
            assert_eq!(p.numerator.len(), 1);
            assert!(is_number_node(&p.numerator[0], 6));
            assert_eq!(p.denominator.len(), 1);
            assert!(is_number_node(&p.denominator[0], 2));
        }
        _ => panic!("expected division by the moved factor"),
    }
}

#[test]
fn additive_isolation_without_constraints() {
    // x + 3 = 7 becomes x = -3 + 7, with no constraints
    let mut eq = Equation::new(vec![Element::simple_add(var("x"), num(3)), num(7)]);
    eq.flatten();
    eq.analyze();
    let constraints = apply_inverse_checked(&mut eq).expect("supported shape");
    assert!(constraints.is_empty());
    match &eq.equation_sides[0].node_or_expression {
        NodeOrExpression::Expression(x) => {
            assert_eq!(x.products.len(), 1);
            assert!(is_variable(&x.products[0].numerator[0], "x"));
        }
        _ => panic!("expected the variable term kept"),
    }
    match &eq.equation_sides[1].node_or_expression {
        NodeOrExpression::Expression(x) => {
            // the moved term, sign-inverted, then the untouched side
            assert_eq!(x.products.len(), 2);
            let moved = &x.products[0];
            assert_eq!(moved.numerator.len(), 1);
            assert_eq!(moved.numerator[0].sign, Sign::Negative);
            assert!(is_number_node(&moved.numerator[0], 3));
            let rest = &x.products[1];
            assert!(is_number_node(&rest.numerator[0], 7));
        }
        _ => panic!("expected the subtraction recorded as a sum"),
    }
}

#[test]
fn unsupported_shapes_are_reported() {
    // two distinct variables in one factor list
    let mut eq = Equation::new(vec![Element::simple_add(var("x"), var("y")), num(1)]);
    eq.flatten();
    eq.analyze();
    assert_eq!(apply_inverse_checked(&mut eq), Err(SolveError::Unsupported));
}

#[test]
fn no_variable_side_means_no_transformation() {
    let mut eq = Equation::new(vec![num(1), num(2)]);
    eq.analyze();
    let before_len = eq.equation_sides.len();
    let constraints = apply_inverse_checked(&mut eq).expect("nothing to do");
    assert!(constraints.is_empty());
    assert_eq!(eq.equation_sides.len(), before_len);
    assert!(is_number_node(&eq.equation_sides[0], 1));
}

#[test]
fn solve_walks_the_graph() {
    // solving sin(x) = 2 explores: the root, the peeled state, its fixpoint
    let mut app = App::new();
    let eq = Equation::new(vec![call("sin", var("x")), num(2)]);
    let graph = app.solve_equation(&eq).expect("solvable shape");
    assert!(graph.equations.len() >= 2);
    assert_eq!(graph.constraints.len(), graph.equations.len() - 1);
    // the root is restored to the normalized pre-transform state
    let root = &graph.equations[0];
    assert!(matches!(
        &root.equation_sides[0].node_or_expression,
        NodeOrExpression::Node(Node::Function { name, .. }) if name == "sin"
    ));
    assert!(is_number_node(&root.equation_sides[1], 2));
    // edges chain each state to the next, starting at the root
    assert_eq!(graph.edge_ends[0], (0, 1));
    for (j, &(from, to)) in graph.edge_ends.iter().enumerate() {
        assert_eq!(to, j + 1);
        assert_eq!(from, j);
    }
    // the final explored state isolates the variable
    let last = &graph.equations[graph.equations.len() - 1];
    assert!(is_variable(&last.equation_sides[0], "x"));
}

#[test]
fn strategies_are_registered_in_order() {
    let app = App::new();
    assert_eq!(
        app.strategies,
        vec![Strategy::Simplify, Strategy::ApplyInverse, Strategy::Flatten]
    );
}

#[test]
fn contexts_store_and_return_equations() {
    let mut app = App::new();
    let ctx = Context::new();
    let ctx_id = app.add_context(ctx);
    let no_ctx = NoContextEquation::new(vec![
        EquationSide::new(call("sin", var("x")), Some(Operation::Equal)),
        EquationSide::new(num(2), None),
    ]);
    let eq_id = app
        .try_add_equation(ctx_id, Ok(no_ctx))
        .expect("context exists");
    assert_eq!(eq_id, 0);
    let stored = app.get_context(ctx_id).expect("context exists");
    assert_eq!(stored.equations.len(), 1);
    assert_eq!(stored.equations[0].equation_sides.len(), 2);
    let solved = app.solve(ctx_id);
    assert!(solved.is_ok());
    assert!(app.get_context(ctx_id).is_some());
}

#[test]
fn removing_a_context_leaves_its_slot_empty() {
    let mut app = App::new();
    let id = app.add_context(Context::new());
    let taken = app.remove_context(id);
    assert!(taken.is_some());
    assert!(app.get_context(id).is_none());
    assert!(app.remove_context(id).is_none());
}

#[test]
fn nonconverging_normalization_is_reported() {
    // the sides c + x and d + x never satisfy the matcher's consistency
    // check against their own previous state, so the fixpoint loop stops
    // at its cap and says so
    let mut app = App::new();
    let eq = Equation::new(vec![
        Element::simple_add(var("c"), var("x")),
        Element::simple_add(var("d"), var("x")),
    ]);
    match app.solve_equation(&eq) {
        Err(e) => assert_eq!(e, SolveError::DidNotConverge),
        Ok(_) => panic!("expected the cap to be reported"),
    }
}

#[test]
fn parse_failures_pass_through() {
    let mut app = App::new();
    let ctx_id = app.add_context(Context::new());
    let outcome = app.try_add_equation(
        ctx_id,
        Err(CreateEquationError::ParseError(ParseError::MissingArgument)),
    );
    assert_eq!(
        outcome,
        Err(CreateEquationError::ParseError(ParseError::MissingArgument))
    );
}

#[test]
fn missing_context_is_an_error() {
    let mut app = App::new();
    let no_ctx = NoContextEquation::new(vec![EquationSide::new(num(1), None)]);
    let outcome = app.try_add_equation(7, Ok(no_ctx));
    assert_eq!(
        outcome,
        Err(CreateEquationError::TokensToEquationError(
            TokensToEquationError::MissingOperands
        ))
    );
}

#[test]
fn strategies_dispatch_by_variant() {
    let mut eq = Equation::new(vec![Element::simple_add(var("x"), num(0)), num(7)]);
    eq.apply_strategy(&Strategy::Flatten).expect("flatten always applies");
    let cs = eq.apply_strategy(&Strategy::Simplify).expect("simplify always applies");
    assert!(cs.is_empty());
    eq.analyze();
    let cs2 = eq.apply_strategy(&Strategy::ApplyInverse).expect("supported shape");
    assert!(cs2.is_empty());
    // the single-variable walk needs a target name, so the closed dispatch
    // reports it as unsupported
    assert!(eq.apply_strategy(&Strategy::SolveOneVariable).is_err());
}

#[test]
fn build_stack_skips_the_target() {
    let side = Element::simple_add(var("x"), num(3));
    let stack = math_eval::traverse::build_stack(&side, "x");
    // the expression node, then 3; the variable itself is left out
    assert_eq!(stack.len(), 2);
    assert!(matches!(
        stack[0].node_or_expression,
        NodeOrExpression::Expression(_)
    ));
    assert!(is_number_node(&stack[1], 3));
    let mut eq = Equation::new(vec![side, num(7)]);
    eq.analyze();
    let stacks = math_eval::traverse::solve_one_variable(&eq, "x");
    assert_eq!(stacks.len(), 2);
    assert_eq!(stacks[0].len(), 2);
}
