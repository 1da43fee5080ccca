//! The solve-graph driver.
//!
//! For each equation state the driver normalizes to a fixpoint (flatten
//! then simplify, until the matcher with a consistent renaming reports no
//! change), applies the inverse-transform engine to a copy, records the
//! transformed state as a new graph node with the emitted constraints on
//! the edge, and recurses while the transformation makes structural
//! progress. Both the normalization loop and the recursion carry explicit
//! caps and surface an error instead of running unbounded.

use vstd::prelude::*;

use crate::analyze::{analyze_spec, analyzed_elem, vars_of};
use crate::ast::element::{
    lemma_view_elem_seq, view_elem_seq, view_element, ElemV, Element, Node, NodeOrExpression,
    NodeV, NoeV,
};
use crate::ast::equation::Equation;
use crate::flatten::flat_elem;
use crate::graph::EquationGraph;
use crate::inverse::{
    apply_inverse, apply_inverse_spec, chosen, fit_one, inverse_preconditions, inverse_spec,
    side_supported, strs_view, var_count,
};
use crate::is_same::{check_spec, empty_names, ms_eq, IsSame, IsSameNames};
use crate::normalize::{simp_side, simp_sides};

verus! {

/// The iteration cap of the normalization fixpoint loop.
pub const NORMALIZE_CAP: u64 = 64;

/// The recursion cap of the solve-graph search.
pub const SOLVE_DEPTH_CAP: u64 = 64;

/// A closed set of rewrite strategies, dispatched by exhaustive matching.
#[derive(Debug, Clone, Copy, PartialEq, Eq, Structural)]
pub enum Strategy {
    Flatten,
    Simplify,
    ApplyInverse,
    SolveOneVariable,
}

pub fn get_simplify() -> (r: Strategy)
    ensures
        r == Strategy::Simplify,
{
    Strategy::Simplify
}

pub fn get_apply_inverse() -> (r: Strategy)
    ensures
        r == Strategy::ApplyInverse,
{
    Strategy::ApplyInverse
}

pub fn get_flatten() -> (r: Strategy)
    ensures
        r == Strategy::Flatten,
{
    Strategy::Flatten
}

pub fn get_solve_one_variable() -> (r: Strategy)
    ensures
        r == Strategy::SolveOneVariable,
{
    Strategy::SolveOneVariable
}

/// Why a solve attempt stopped without an answer.
#[derive(Debug, Clone, Copy, PartialEq, Eq, Structural)]
pub enum SolveError {
    /// A precondition of the engine does not hold for this tree: a side or
    /// factor carries more than one variable, or a variable side does not
    /// expose the function being peeled off.
    Unsupported,
    /// The flatten/simplify loop did not reach a fixpoint within the cap.
    DidNotConverge,
    /// The solve recursion exceeded its depth cap.
    DepthLimit,
    /// The graph grew past the index type's capacity.
    CapacityLimit,
}

// ---------------------------------------------------------------------------
// The equation-level rewrite passes.
// ---------------------------------------------------------------------------

pub open spec fn flat_sides(s: Seq<ElemV>) -> Seq<ElemV> {
    Seq::new(s.len(), |i: int| flat_elem(s[i]))
}

pub open spec fn analyze_sides_spec(s: Seq<ElemV>) -> Seq<ElemV> {
    Seq::new(s.len(), |i: int| analyze_spec(s[i]))
}

/// One round of normalization: flatten, then simplify.
pub open spec fn step_sides(s: Seq<ElemV>) -> Seq<ElemV> {
    simp_sides(flat_sides(s))
}

impl Equation {
    /// Flatten every side.
    pub fn flatten(&mut self)
        ensures
            final(self)@ == flat_sides(old(self)@),
    {
        let ghost sv = old(self)@;
        proof {
            lemma_view_elem_seq(self.equation_sides@);
        }
        let n = self.equation_sides.len();
        let mut sides: Vec<Element> = Vec::new();
        let mut i: usize = 0;
        while i < n
            invariant
                n == self.equation_sides@.len(),
                self.equation_sides@ == old(self).equation_sides@,
                sv == old(self)@,
                sv.len() == n,
                forall|j: int| 0 <= j < n ==> sv[j] == view_element(self.equation_sides@[j]),
                0 <= i <= n,
                sides@.len() == i,
                forall|j: int|
                    0 <= j < i ==> view_element(#[trigger] sides@[j]) == flat_elem(sv[j]),
            decreases n - i,
        {
            sides.push(crate::flatten::flat_elem_exec(&self.equation_sides[i]));
            i += 1;
        }
        self.equation_sides = sides;
        proof {
            lemma_view_elem_seq(self.equation_sides@);
            assert(final(self)@ =~= flat_sides(sv));
        }
    }

    /// Analyze every side, so caches reflect the current shape.
    pub fn analyze(&mut self)
        ensures
            final(self)@ == analyze_sides_spec(old(self)@),
            forall|i: int|
                0 <= i < final(self)@.len() ==> analyzed_elem(#[trigger] final(self)@[i]),
    {
        let ghost sv = old(self)@;
        proof {
            lemma_view_elem_seq(self.equation_sides@);
        }
        let n = self.equation_sides.len();
        let mut sides: Vec<Element> = Vec::new();
        let mut i: usize = 0;
        while i < n
            invariant
                n == self.equation_sides@.len(),
                self.equation_sides@ == old(self).equation_sides@,
                sv == old(self)@,
                sv.len() == n,
                forall|j: int| 0 <= j < n ==> sv[j] == view_element(self.equation_sides@[j]),
                0 <= i <= n,
                sides@.len() == i,
                forall|j: int|
                    0 <= j < i ==> view_element(#[trigger] sides@[j]) == analyze_spec(sv[j]),
            decreases n - i,
        {
            let mut e = self.equation_sides[i].duplicate();
            e.analyze();
            sides.push(e);
            i += 1;
        }
        self.equation_sides = sides;
        proof {
            lemma_view_elem_seq(self.equation_sides@);
            assert(final(self)@ =~= analyze_sides_spec(sv));
            assert forall|i2: int|
                0 <= i2 < final(self)@.len() implies analyzed_elem(#[trigger] final(self)@[i2]) by {
                crate::analyze::lemma_analyze_ok(sv[i2]);
            }
        }
    }
}

/// Simplify every side of the equation; the strategy emits no constraints.
pub fn simplify_equation(equation: &mut Equation) -> (r: Vec<String>)
    ensures
        final(equation)@ == simp_sides(old(equation)@),
        r@.len() == 0,
{
    let ghost sv = old(equation)@;
    proof {
        lemma_view_elem_seq(equation.equation_sides@);
    }
    let n = equation.equation_sides.len();
    let mut sides: Vec<Element> = Vec::new();
    let mut i: usize = 0;
    while i < n
        invariant
            n == equation.equation_sides@.len(),
            equation.equation_sides@ == old(equation).equation_sides@,
            sv == old(equation)@,
            sv.len() == n,
            forall|j: int| 0 <= j < n ==> sv[j] == view_element(equation.equation_sides@[j]),
            0 <= i <= n,
            sides@.len() == i,
            forall|j: int| 0 <= j < i ==> view_element(#[trigger] sides@[j]) == simp_side(sv[j]),
        decreases n - i,
    {
        let e = crate::normalize::norm_elem_exec(&equation.equation_sides[i]);
        let is_empty_expr = match &e.node_or_expression {
            NodeOrExpression::Expression(x) => x.products.len() == 0,
            _ => false,
        };
        if is_empty_expr {
            proof {
                crate::ast::element::lemma_view_prod_seq(
                    e.node_or_expression->Expression_0.products@,
                );
            }
            let zero = Element {
                sign: crate::ast::element::Sign::Positive,
                node_or_expression: NodeOrExpression::Node(
                    Node::Number(crate::rational::Rational::from_integer(0)),
                ),
                cache: None,
            };
            proof {
                assert(view_element(zero) =~~= simp_side(sv[i as int]));
            }
            sides.push(zero);
        } else {
            proof {
                if view_element(e).body is Expression {
                    crate::ast::element::lemma_view_prod_seq(
                        e.node_or_expression->Expression_0.products@,
                    );
                }
                assert(view_element(e) == simp_side(sv[i as int]));
            }
            sides.push(e);
        }
        i += 1;
    }
    equation.equation_sides = sides;
    proof {
        lemma_view_elem_seq(equation.equation_sides@);
        assert(final(equation)@ =~= simp_sides(sv));
    }
    Vec::new()
}

// ---------------------------------------------------------------------------
// The normalization fixpoint loop.
// ---------------------------------------------------------------------------

/// The loop on the model: rewrite, compare against the previous state with
/// the matcher, stop when they agree under a consistent renaming.
pub open spec fn norm_fix(prev: Seq<ElemV>, cur: Seq<ElemV>, fuel: nat) -> Option<Seq<ElemV>>
    decreases fuel,
{
    if fuel == 0 {
        None
    } else {
        let next = step_sides(cur);
        let cmp = ms_eq(prev, next, empty_names());
        if cmp.0 && check_spec(cmp.1) {
            Some(next)
        } else {
            norm_fix(next, next, (fuel - 1) as nat)
        }
    }
}

/// Run flatten and simplify to a matcher fixpoint, or report that the cap
/// was reached.
pub fn normalize_equation(equation: &mut Equation) -> (r: Result<(), SolveError>)
    ensures
        match norm_fix(old(equation)@, old(equation)@, NORMALIZE_CAP as nat) {
            Some(res) => r is Ok && final(equation)@ == res,
            None => r == Err::<(), SolveError>(SolveError::DidNotConverge),
        },
{
    let ghost target = norm_fix(old(equation)@, old(equation)@, NORMALIZE_CAP as nat);
    let mut previous = equation.duplicate();
    let mut fuel: u64 = NORMALIZE_CAP;
    while fuel > 0
        invariant
            fuel <= NORMALIZE_CAP,
            target == norm_fix(old(equation)@, old(equation)@, NORMALIZE_CAP as nat),
            norm_fix(previous@, equation@, fuel as nat) == target,
        decreases fuel,
    {
        let ghost prev_top = previous@;
        let ghost eq_top = equation@;
        equation.flatten();
        let _ = simplify_equation(equation);
        proof {
            assert(equation@ == step_sides(eq_top));
        }
        let mut names = IsSameNames::new();
        let same = Equation::is_same(&previous, equation, &mut names);
        let consistent = names.check();
        proof {
            assert(ms_eq(prev_top, step_sides(eq_top), empty_names()) == (same, names@));
        }
        if same && consistent {
            proof {
                assert(norm_fix(prev_top, eq_top, fuel as nat) == Some(equation@));
            }
            return Ok(());
        }
        proof {
            assert(norm_fix(prev_top, eq_top, fuel as nat) == norm_fix(
                step_sides(eq_top),
                step_sides(eq_top),
                (fuel - 1) as nat,
            ));
        }
        previous = equation.duplicate();
        fuel = fuel - 1;
    }
    Err(SolveError::DidNotConverge)
}

// ---------------------------------------------------------------------------
// The engine step with its preconditions checked at run time.
// ---------------------------------------------------------------------------

/// Run the inverse-transform engine after checking the shapes it supports,
/// failing fast with a diagnostic instead of proceeding on unsupported
/// trees. On analyzed input the outcome is exact: the engine runs if and
/// only if its preconditions hold.
pub fn apply_inverse_checked(equation: &mut Equation) -> (r: Result<Vec<String>, SolveError>)
    requires
        forall|i: int| 0 <= i < old(equation)@.len() ==> analyzed_elem(#[trigger] old(equation)@[i]),
    ensures
        match r {
            Ok(cs) => {
                &&& inverse_preconditions(old(equation)@)
                &&& final(equation)@ == apply_inverse_spec(old(equation)@).0
                &&& strs_view(cs@) == apply_inverse_spec(old(equation)@).1
            },
            Err(e) => {
                &&& final(equation)@ == old(equation)@
                &&& e == SolveError::Unsupported
                &&& !inverse_preconditions(old(equation)@)
            },
        },
{
    let ghost sv = old(equation)@;
    proof {
        lemma_view_elem_seq(equation.equation_sides@);
    }
    let n = equation.equation_sides.len();
    if n != 2 {
        proof {
            assert(inverse_preconditions(sv));
            assert(apply_inverse_spec(sv).0 == sv);
        }
        let cs = apply_inverse(equation);
        return Ok(cs);
    }
    // every side must carry at most one distinct variable
    let mut i: usize = 0;
    while i < n
        invariant
            n == 2,
            n == equation.equation_sides@.len(),
            equation.equation_sides@ == old(equation).equation_sides@,
            sv == old(equation)@,
            sv.len() == n,
            forall|j: int| 0 <= j < n ==> sv[j] == view_element(equation.equation_sides@[j]),
            forall|j: int| 0 <= j < n ==> analyzed_elem(#[trigger] sv[j]),
            0 <= i <= n,
            forall|j: int| 0 <= j < i ==> vars_of(#[trigger] sv[j]).len() <= 1,
        decreases n - i,
    {
        proof {
            assert(analyzed_elem(sv[i as int]));
        }
        let vc = crate::inverse::variable_count(&equation.equation_sides[i]);
        if vc > 1 {
            proof {
                assert(vars_of(sv[i as int]).len() > 1);
                assert(!crate::inverse::all_sides_supported(sv));
                assert(!inverse_preconditions(sv));
            }
            return Err(SolveError::Unsupported);
        }
        i += 1;
    }
    // find the side carrying the variable
    let mut idx: usize = 0;
    let mut found = false;
    while idx < n && !found
        invariant
            n == 2,
            n == equation.equation_sides@.len(),
            equation.equation_sides@ == old(equation).equation_sides@,
            sv == old(equation)@,
            sv.len() == n,
            forall|j: int| 0 <= j < n ==> sv[j] == view_element(equation.equation_sides@[j]),
            forall|j: int| 0 <= j < n ==> analyzed_elem(#[trigger] sv[j]),
            0 <= idx <= n,
            forall|j: int| 0 <= j < idx ==> vars_of(#[trigger] sv[j]).len() == 0,
            found ==> idx < n && vars_of(sv[idx as int]).len() >= 1,
        decreases n - idx, if found { 0int } else { 1int },
    {
        proof {
            assert(analyzed_elem(sv[idx as int]));
        }
        let vc = crate::inverse::variable_count(&equation.equation_sides[idx]);
        if vc >= 1 {
            found = true;
        } else {
            idx += 1;
        }
    }
    proof {
        crate::inverse::lemma_first_variable_side(sv, idx as int, found);
    }
    if !found {
        proof {
            assert(chosen(sv) == -1);
            assert(inverse_preconditions(sv));
        }
        let cs = apply_inverse(equation);
        return Ok(cs);
    }
    // a lone product may not hold a factor with more than one variable
    let side_ok = check_side_supported(&equation.equation_sides[idx]);
    if !side_ok {
        proof {
            assert(chosen(sv) == idx as int);
            assert(!side_supported(sv[chosen(sv)]));
            assert(!inverse_preconditions(sv));
        }
        return Err(SolveError::Unsupported);
    }
    // when a function is peeled off, every variable side must be that shape
    let is_function_side = match &equation.equation_sides[idx].node_or_expression {
        NodeOrExpression::Node(Node::Function { .. }) => true,
        _ => false,
    };
    if is_function_side {
        proof {
            assert(sv[idx as int].body is Node && sv[idx as int].body->Node_0 is Function);
        }
        let mut j: usize = 0;
        while j < n
            invariant
                n == 2,
                n == equation.equation_sides@.len(),
                equation.equation_sides@ == old(equation).equation_sides@,
                idx < n,
                chosen(sv) == idx as int,
                sv[idx as int].body is Node && sv[idx as int].body->Node_0 is Function,
                sv == old(equation)@,
                sv.len() == n,
                forall|k: int| 0 <= k < n ==> sv[k] == view_element(equation.equation_sides@[k]),
                forall|k: int| 0 <= k < n ==> analyzed_elem(#[trigger] sv[k]),
                0 <= j <= n,
                forall|k: int|
                    0 <= k < j ==> (vars_of(#[trigger] sv[k]).len() == 1 ==> (sv[k].body
                        matches NoeV::Node(NodeV::Function { name, arguments })
                        && arguments.len() >= 1)),
            decreases n - j,
        {
            proof {
                assert(analyzed_elem(sv[j as int]));
            }
            let vc = crate::inverse::variable_count(&equation.equation_sides[j]);
            if vc == 1 {
                let shape_ok = match &equation.equation_sides[j].node_or_expression {
                    NodeOrExpression::Node(Node::Function { arguments, .. }) => {
                        proof {
                            lemma_view_elem_seq(
                                equation.equation_sides@[j as int].node_or_expression
                                    ->Node_0->Function_arguments@,
                            );
                        }
                        arguments.len() >= 1
                    },
                    _ => false,
                };
                if !shape_ok {
                    proof {
                        assert(chosen(sv) == idx as int);
                        assert(sv[idx as int] == view_element(
                            equation.equation_sides@[idx as int],
                        ));
                        assert(sv[idx as int].body matches NoeV::Node(NodeV::Function {
                            name,
                            arguments,
                        }));
                        assert(inverse_spec(sv[idx as int]) is Some);
                        let t = inverse_spec(sv[idx as int])->Some_0.0;
                        assert(t is Function || t is InverseFunction);
                        assert(vars_of(sv[j as int]).len() == 1);
                        assert(!fit_one(sv[j as int], t));
                        assert(!crate::inverse::sides_fit(sv, t));
                        assert(!inverse_preconditions(sv));
                    }
                    return Err(SolveError::Unsupported);
                }
            }
            j += 1;
        }
        proof {
            assert(chosen(sv) == idx as int);
            assert(sv[idx as int] == view_element(equation.equation_sides@[idx as int]));
            assert(sv[idx as int].body matches NoeV::Node(NodeV::Function { name, arguments }));
            assert(inverse_spec(sv[idx as int]) is Some);
            let t = inverse_spec(sv[idx as int])->Some_0.0;
            assert forall|k: int| 0 <= k < n implies fit_one(#[trigger] sv[k], t) by {
                if vars_of(sv[k]).len() == 1 {
                    assert(sv[k].body matches NoeV::Node(NodeV::Function { name, arguments })
                        && arguments.len() >= 1);
                }
            }
            assert(inverse_preconditions(sv));
        }
    } else {
        proof {
            assert(chosen(sv) == idx as int);
            assert(sv[idx as int] == view_element(equation.equation_sides@[idx as int]));
            assert(!(sv[idx as int].body matches NoeV::Node(NodeV::Function {
                name,
                arguments,
            })));
            if inverse_spec(sv[idx as int]) is Some {
                let t = inverse_spec(sv[idx as int])->Some_0.0;
                assert(!(t is Function) && !(t is InverseFunction));
                assert forall|k: int| 0 <= k < n implies fit_one(#[trigger] sv[k], t) by {}
            }
            assert(inverse_preconditions(sv));
        }
    }
    proof {
        assert(inverse_preconditions(sv));
    }
    let cs = apply_inverse(equation);
    Ok(cs)
}

/// Whether a lone-product side keeps each factor under one variable.
fn check_side_supported(side: &Element) -> (r: bool)
    requires
        analyzed_elem(side@),
    ensures
        r == side_supported(side@),
{
    match &side.node_or_expression {
        NodeOrExpression::Expression(x) => {
            proof {
                crate::ast::element::lemma_view_prod_seq(x.products@);
            }
            if x.products.len() != 1 {
                return true;
            }
            let p = &x.products[0];
            proof {
                assert(side@.body->Expression_0.products[0] == view_element_product_helper(
                    *p,
                ));
                assert(crate::analyze::analyzed_prod(side@.body->Expression_0.products[0]));
            }
            let a = check_factors(&p.numerator);
            if !a {
                return false;
            }
            let b = check_factors(&p.denominator);
            b
        },
        _ => true,
    }
}

pub open spec fn view_element_product_helper(p: crate::ast::element::Product)
    -> crate::ast::element::ProdV {
    crate::ast::element::view_product(p)
}

/// Whether every factor of one list carries at most one variable.
fn check_factors(v: &Vec<Element>) -> (r: bool)
    requires
        crate::analyze::analyzed_eseq(view_elem_seq(v@)),
    ensures
        r == crate::inverse::factors_supported(view_elem_seq(v@)),
{
    let ghost sv = view_elem_seq(v@);
    proof {
        lemma_view_elem_seq(v@);
    }
    let n = v.len();
    let mut i: usize = 0;
    while i < n
        invariant
            n == v@.len(),
            sv == view_elem_seq(v@),
            sv.len() == n,
            forall|j: int| 0 <= j < n ==> sv[j] == view_element(v@[j]),
            crate::analyze::analyzed_eseq(sv),
            0 <= i <= n,
            forall|j: int| 0 <= j < i ==> var_count(#[trigger] sv[j]) <= 1,
        decreases n - i,
    {
        proof {
            assert(analyzed_elem(sv[i as int]));
        }
        let vc = crate::inverse::variable_count(&v[i]);
        if vc > 1 {
            proof {
                assert(var_count(sv[i as int]) > 1);
            }
            return false;
        }
        i += 1;
    }
    true
}

impl Equation {
    /// Apply one strategy, returning the constraints it emitted. The
    /// single-variable walk needs a target name and drives nothing here.
    pub fn apply_strategy(&mut self, strategy: &Strategy) -> (r: Result<Vec<String>, SolveError>)
        requires
            strategy == Strategy::ApplyInverse ==> forall|i: int|
                0 <= i < old(self)@.len() ==> analyzed_elem(#[trigger] old(self)@[i]),
        ensures
            match strategy {
                Strategy::Flatten => r matches Ok(cs) && cs@.len() == 0 && final(self)@
                    == flat_sides(old(self)@),
                Strategy::Simplify => r matches Ok(cs) && cs@.len() == 0 && final(self)@
                    == simp_sides(old(self)@),
                Strategy::ApplyInverse => match r {
                    Ok(cs) => inverse_preconditions(old(self)@) && final(self)@
                        == apply_inverse_spec(old(self)@).0 && strs_view(cs@)
                        == apply_inverse_spec(old(self)@).1,
                    Err(e) => final(self)@ == old(self)@ && e == SolveError::Unsupported
                        && !inverse_preconditions(old(self)@),
                },
                Strategy::SolveOneVariable => r == Err::<Vec<String>, SolveError>(
                    SolveError::Unsupported,
                ) && final(self)@ == old(self)@,
            },
    {
        match strategy {
            Strategy::Flatten => {
                self.flatten();
                Ok(Vec::new())
            },
            Strategy::Simplify => Ok(simplify_equation(self)),
            Strategy::ApplyInverse => apply_inverse_checked(self),
            Strategy::SolveOneVariable => Err(SolveError::Unsupported),
        }
    }
}

// ---------------------------------------------------------------------------
// The solve-graph search.
// ---------------------------------------------------------------------------

/// What expanding one node does, on the model: normalize to the matcher
/// fixpoint, re-analyze, apply the inverse engine, record the transformed
/// state as a child with the emitted constraints on its edge, and recurse
/// while the child is not matcher-same (with consistent renaming) to the
/// normalized parent. `appended` holds, per child added below this node in
/// append order, the equation finally stored there and the edge's
/// constraint labels; `outcome` is the normalized state restored into the
/// node itself, or the error that stopped the search; `leaves` gives the
/// offsets (into `appended`) of the terminal states reached.
#[verifier::ext_equal]
pub struct DriveV {
    pub appended: Seq<(Seq<ElemV>, Seq<Seq<char>>)>,
    pub outcome: Result<Seq<ElemV>, SolveError>,
    pub leaves: Seq<int>,
}

pub open spec fn drive(e: Seq<ElemV>, eqlen: int, clen: int, fuel: nat) -> DriveV
    decreases fuel,
{
    if fuel == 0 {
        DriveV {
            appended: Seq::empty(),
            outcome: Err(SolveError::DepthLimit),
            leaves: Seq::empty(),
        }
    } else {
        let a1 = analyze_sides_spec(e);
        match norm_fix(a1, a1, NORMALIZE_CAP as nat) {
            None => DriveV {
                appended: Seq::empty(),
                outcome: Err(SolveError::DidNotConverge),
                leaves: Seq::empty(),
            },
            Some(n0) => {
                let a2 = analyze_sides_spec(n0);
                if !inverse_preconditions(a2) {
                    DriveV {
                        appended: Seq::empty(),
                        outcome: Err(SolveError::Unsupported),
                        leaves: Seq::empty(),
                    }
                } else if eqlen >= 0xFFFF_FFFE || clen >= 0xFFFF_FFFE {
                    DriveV {
                        appended: Seq::empty(),
                        outcome: Err(SolveError::CapacityLimit),
                        leaves: Seq::empty(),
                    }
                } else {
                    let child = apply_inverse_spec(a2).0;
                    let cs = apply_inverse_spec(a2).1;
                    let cmp = ms_eq(child, a2, empty_names());
                    if cmp.0 && check_spec(cmp.1) {
                        DriveV {
                            appended: seq![(child, cs)],
                            outcome: Ok(a2),
                            leaves: seq![0],
                        }
                    } else {
                        let sub = drive(child, eqlen + 1, clen + 1, (fuel - 1) as nat);
                        let child_final = match sub.outcome {
                            Ok(restored_child) => restored_child,
                            Err(_) => child,
                        };
                        DriveV {
                            appended: seq![(child_final, cs)].add(sub.appended),
                            outcome: match sub.outcome {
                                Ok(_) => Ok(a2),
                                Err(err2) => Err(err2),
                            },
                            leaves: Seq::new(sub.leaves.len(), |i: int| sub.leaves[i] + 1),
                        }
                    }
                }
            },
        }
    }
}

/// The graph after expanding a node relates to the graph before exactly as
/// `drive` on the node's equation says.
pub open spec fn drive_effect(
    pre: EquationGraph,
    post: EquationGraph,
    node_index: int,
    out: DriveV,
    r: Result<Vec<usize>, SolveError>,
) -> bool {
    let el0 = pre.equations@.len() as int;
    let cl0 = pre.constraints@.len() as int;
    &&& post.equations@.len() == el0 + out.appended.len()
    &&& post.constraints@.len() == cl0 + out.appended.len()
    &&& post.edge_ends@.len() == cl0 + out.appended.len()
    &&& forall|k: int|
        0 <= k < out.appended.len() ==> (#[trigger] post.equations@[el0 + k])@ == out.appended[
            k
        ].0
    &&& forall|k: int|
        0 <= k < out.appended.len() ==> strs_view((#[trigger] post.constraints@[cl0 + k])@)
            == out.appended[k].1
    &&& forall|k: int|
        0 <= k < out.appended.len() ==> (#[trigger] post.edge_ends@[cl0 + k]) == (
            (if k == 0 {
                node_index as usize
            } else {
                (el0 + k - 1) as usize
            }),
            (el0 + k) as usize,
        )
    &&& forall|i: int|
        0 <= i < el0 && i != node_index ==> #[trigger] post.equations@[i] == pre.equations@[i]
    &&& forall|j: int| 0 <= j < cl0 ==> #[trigger] post.constraints@[j] == pre.constraints@[j]
    &&& forall|j: int| 0 <= j < cl0 ==> #[trigger] post.edge_ends@[j] == pre.edge_ends@[j]
    &&& match out.outcome {
        Ok(restored) => {
            &&& post.equations@[node_index]@ == restored
            &&& r matches Ok(ls)
            &&& ls@.len() == out.leaves.len()
            &&& forall|i: int|
                0 <= i < ls@.len() ==> (#[trigger] ls@[i]) as int == el0 + out.leaves[i]
        },
        Err(err) => {
            &&& r == Err::<Vec<usize>, SolveError>(err)
            &&& post.equations@[node_index] == pre.equations@[node_index]
        },
    }
}

/// Gluing one appended child and the recursion below it into the node's
/// whole effect: lengths, stored contents, labels and endpoints line up.
proof fn lemma_glue_common(
    pre: EquationGraph,
    mid: EquationGraph,
    post: EquationGraph,
    node: int,
    out: DriveV,
    sub: DriveV,
)
    requires
        0 <= node < pre.equations@.len(),
        mid.equations@.len() == pre.equations@.len() + 1,
        mid.constraints@.len() == pre.constraints@.len() + 1,
        mid.edge_ends@.len() == pre.constraints@.len() + 1,
        forall|i: int|
            0 <= i < pre.equations@.len() ==> #[trigger] mid.equations@[i] == pre.equations@[i],
        forall|j: int|
            0 <= j < pre.constraints@.len() ==> #[trigger] mid.constraints@[j]
                == pre.constraints@[j],
        forall|j: int|
            0 <= j < pre.constraints@.len() ==> #[trigger] mid.edge_ends@[j] == pre.edge_ends@[j],
        mid.edge_ends@[pre.constraints@.len() as int] == (
            node as usize,
            pre.equations@.len() as usize,
        ),
        out.appended.len() == 1 + sub.appended.len(),
        out.appended[0].1 == strs_view(mid.constraints@[pre.constraints@.len() as int]@),
        out.appended[0].0 == (match sub.outcome {
            Ok(rc) => rc,
            Err(_) => mid.equations@[pre.equations@.len() as int]@,
        }),
        forall|k: int| 1 <= k < out.appended.len() ==> #[trigger] out.appended[k] == sub.appended[
            k - 1
        ],
        // what the recursion did, phrased over `mid`
        post.equations@.len() == mid.equations@.len() + sub.appended.len(),
        post.constraints@.len() == mid.constraints@.len() + sub.appended.len(),
        post.edge_ends@.len() == mid.constraints@.len() + sub.appended.len(),
        forall|k: int|
            0 <= k < sub.appended.len() ==> (#[trigger] post.equations@[mid.equations@.len() + k])@
                == sub.appended[k].0,
        forall|k: int|
            0 <= k < sub.appended.len() ==> strs_view(
                (#[trigger] post.constraints@[mid.constraints@.len() + k])@,
            ) == sub.appended[k].1,
        forall|k: int|
            0 <= k < sub.appended.len() ==> (#[trigger] post.edge_ends@[mid.constraints@.len()
                + k]) == (
                (if k == 0 {
                    pre.equations@.len() as usize
                } else {
                    (mid.equations@.len() + k - 1) as usize
                }),
                (mid.equations@.len() + k) as usize,
            ),
        forall|i: int|
            0 <= i < mid.equations@.len() && i != pre.equations@.len() as int
                ==> #[trigger] post.equations@[i] == mid.equations@[i],
        forall|j: int|
            0 <= j < mid.constraints@.len() ==> #[trigger] post.constraints@[j]
                == mid.constraints@[j],
        forall|j: int|
            0 <= j < mid.constraints@.len() ==> #[trigger] post.edge_ends@[j] == mid.edge_ends@[j],
        match sub.outcome {
            Ok(rc) => (post.equations@[pre.equations@.len() as int])@ == rc,
            Err(_) => post.equations@[pre.equations@.len() as int] == mid.equations@[
                pre.equations@.len() as int
            ],
        },
    ensures
        post.equations@.len() == pre.equations@.len() + out.appended.len(),
        post.constraints@.len() == pre.constraints@.len() + out.appended.len(),
        post.edge_ends@.len() == pre.constraints@.len() + out.appended.len(),
        forall|k: int|
            0 <= k < out.appended.len() ==> (#[trigger] post.equations@[pre.equations@.len()
                + k])@ == out.appended[k].0,
        forall|k: int|
            0 <= k < out.appended.len() ==> strs_view(
                (#[trigger] post.constraints@[pre.constraints@.len() + k])@,
            ) == out.appended[k].1,
        forall|k: int|
            0 <= k < out.appended.len() ==> (#[trigger] post.edge_ends@[pre.constraints@.len()
                + k]) == (
                (if k == 0 {
                    node as usize
                } else {
                    (pre.equations@.len() + k - 1) as usize
                }),
                (pre.equations@.len() + k) as usize,
            ),
        forall|i: int|
            0 <= i < pre.equations@.len() && i != node ==> #[trigger] post.equations@[i]
                == pre.equations@[i],
        forall|j: int|
            0 <= j < pre.constraints@.len() ==> #[trigger] post.constraints@[j]
                == pre.constraints@[j],
        forall|j: int|
            0 <= j < pre.constraints@.len() ==> #[trigger] post.edge_ends@[j] == pre.edge_ends@[j],
        post.equations@[node] == pre.equations@[node],
{
    let el0 = pre.equations@.len() as int;
    let cl0 = pre.constraints@.len() as int;
    assert forall|k: int| 0 <= k < out.appended.len() implies (#[trigger] post.equations@[el0
        + k])@ == out.appended[k].0 by {
        if k == 0 {
            match sub.outcome {
                Ok(rc) => {
                },
                Err(_) => {
                    assert(post.equations@[el0] == mid.equations@[el0]);
                },
            }
        } else {
            assert(post.equations@[(el0 + 1) + (k - 1)]@ == sub.appended[k - 1].0);
        }
    }
    assert forall|k: int| 0 <= k < out.appended.len() implies strs_view(
        (#[trigger] post.constraints@[cl0 + k])@,
    ) == out.appended[k].1 by {
        if k == 0 {
            assert(post.constraints@[cl0] == mid.constraints@[cl0]);
        } else {
            assert(strs_view(post.constraints@[(cl0 + 1) + (k - 1)]@) == sub.appended[k - 1].1);
        }
    }
    assert forall|k: int| 0 <= k < out.appended.len() implies (#[trigger] post.edge_ends@[cl0
        + k]) == (
        (if k == 0 {
            node as usize
        } else {
            (el0 + k - 1) as usize
        }),
        (el0 + k) as usize,
    ) by {
        if k == 0 {
            assert(post.edge_ends@[cl0] == mid.edge_ends@[cl0]);
        } else {
            assert(post.edge_ends@[(cl0 + 1) + (k - 1)] == (
                (if k - 1 == 0 {
                    el0 as usize
                } else {
                    ((el0 + 1) + (k - 1) - 1) as usize
                }),
                ((el0 + 1) + (k - 1)) as usize,
            ));
        }
    }
    assert forall|i: int| 0 <= i < el0 && i != node implies #[trigger] post.equations@[i]
        == pre.equations@[i] by {
        assert(post.equations@[i] == mid.equations@[i]);
    }
    assert forall|j: int| 0 <= j < cl0 implies #[trigger] post.constraints@[j]
        == pre.constraints@[j] by {
        assert(post.constraints@[j] == mid.constraints@[j]);
    }
    assert forall|j: int| 0 <= j < cl0 implies #[trigger] post.edge_ends@[j] == pre.edge_ends@[j]
        by {
        assert(post.edge_ends@[j] == mid.edge_ends@[j]);
    }
    assert(post.equations@[node] == mid.equations@[node]);
}

impl crate::context::App {
    /// Expand one graph node: normalize its equation, apply the inverse
    /// engine to a copy, record the result as a child with its constraints,
    /// and recurse while the transformation changed the equation. The whole
    /// effect — the children and edges appended, the node's restoration to
    /// the normalized pre-transform state, and the terminal indices
    /// returned — is exactly what `drive` describes.
    pub fn process_graph_node(&mut self, node_index: usize, graph: &mut EquationGraph, depth: u64)
        -> (r: Result<Vec<usize>, SolveError>)
        requires
            old(graph).wf(),
            node_index < old(graph).equations@.len(),
        ensures
            final(graph).wf(),
            drive_effect(
                *old(graph),
                *final(graph),
                node_index as int,
                drive(
                    old(graph).equations@[node_index as int]@,
                    old(graph).equations@.len() as int,
                    old(graph).constraints@.len() as int,
                    depth as nat,
                ),
                r,
            ),
            final(self).contexts@ == old(self).contexts@,
            final(self).strategies == old(self).strategies,
            final(self).formulas == old(self).formulas,
        decreases depth,
    {
        let ghost e0 = old(graph).equations@[node_index as int]@;
        let ghost el0 = old(graph).equations@.len() as int;
        let ghost cl0 = old(graph).constraints@.len() as int;
        let ghost out = drive(e0, el0, cl0, depth as nat);
        if depth == 0 {
            proof {
                assert(drive_effect(*old(graph), *graph, node_index as int, out, Err::<
                    Vec<usize>,
                    SolveError,
                >(SolveError::DepthLimit)));
            }
            return Err(SolveError::DepthLimit);
        }
        let mut original_eq = graph.equation_at(node_index).duplicate();
        proof {
            assert(original_eq@ == e0);
        }
        original_eq.analyze();
        let ghost a1 = analyze_sides_spec(e0);
        match normalize_equation(&mut original_eq) {
            Ok(()) => {
            },
            Err(e) => {
                proof {
                    assert(norm_fix(a1, a1, NORMALIZE_CAP as nat) is None);
                    assert(out.outcome == Err::<Seq<ElemV>, SolveError>(
                        SolveError::DidNotConverge,
                    ));
                    assert(drive_effect(*old(graph), *graph, node_index as int, out, Err::<
                        Vec<usize>,
                        SolveError,
                    >(e)));
                }
                return Err(e);
            },
        }
        original_eq.analyze();
        let ghost n0 = norm_fix(a1, a1, NORMALIZE_CAP as nat)->Some_0;
        let ghost a2 = analyze_sides_spec(n0);
        proof {
            assert(original_eq@ == a2);
        }
        let mut cloned_eq = original_eq.duplicate();
        let constraints = match apply_inverse_checked(&mut cloned_eq) {
            Ok(cs) => cs,
            Err(e) => {
                proof {
                    assert(!inverse_preconditions(a2));
                    assert(out.outcome == Err::<Seq<ElemV>, SolveError>(
                        SolveError::Unsupported,
                    ));
                    assert(drive_effect(*old(graph), *graph, node_index as int, out, Err::<
                        Vec<usize>,
                        SolveError,
                    >(e)));
                }
                return Err(e);
            },
        };
        let ghost child = apply_inverse_spec(a2).0;
        let ghost cs0 = apply_inverse_spec(a2).1;
        proof {
            assert(cloned_eq@ == child);
            assert(strs_view(constraints@) == cs0);
        }
        if graph.equations.len() >= 0xFFFF_FFFEusize || graph.constraints.len()
            >= 0xFFFF_FFFEusize {
            proof {
                assert(out.outcome == Err::<Seq<ElemV>, SolveError>(SolveError::CapacityLimit));
                assert(drive_effect(*old(graph), *graph, node_index as int, out, Err::<
                    Vec<usize>,
                    SolveError,
                >(SolveError::CapacityLimit)));
            }
            return Err(SolveError::CapacityLimit);
        }
        let (new_index, _edge) = graph.add_path(cloned_eq, constraints, node_index);
        let ghost mid = *graph;
        let mut names = IsSameNames::new();
        let progressed = {
            let leaf_eq = graph.equation_at(new_index);
            let same = Equation::is_same(leaf_eq, &original_eq, &mut names);
            let consistent = names.check();
            !same || !consistent
        };
        let ghost cmp = ms_eq(child, a2, empty_names());
        proof {
            assert(progressed == !(cmp.0 && check_spec(cmp.1)));
        }
        let mut leaves: Vec<usize> = Vec::new();
        if progressed {
            let ghost sub = drive(child, el0 + 1, cl0 + 1, (depth - 1) as nat);
            proof {
                assert(out.appended == seq![
                    ((match sub.outcome {
                        Ok(rc) => rc,
                        Err(_) => child,
                    }), cs0),
                ].add(sub.appended));
                assert(out.leaves == Seq::new(sub.leaves.len(), |i: int| sub.leaves[i] + 1));
                assert(out.outcome == (match sub.outcome {
                    Ok(_) => Ok::<Seq<ElemV>, SolveError>(a2),
                    Err(err2) => Err::<Seq<ElemV>, SolveError>(err2),
                }));
                assert(mid.equations@.len() == el0 + 1);
                assert(mid.constraints@.len() == cl0 + 1);
                assert(mid.equations@[el0]@ == child);
                assert(strs_view(mid.constraints@[cl0]@) == cs0);
                assert(mid.edge_ends@[cl0] == (node_index, el0 as usize));
            }
            match self.process_graph_node(new_index, graph, depth - 1) {
                Ok(mut inner) => {
                    let ghost innerv = inner@;
                    leaves.append(&mut inner);
                    proof {
                        assert(leaves@ =~= innerv);
                        assert(sub.outcome is Ok);
                    }
                },
                Err(e) => {
                    proof {
                        assert(sub.outcome == Err::<Seq<ElemV>, SolveError>(e));
                        lemma_glue_common(*old(graph), mid, *graph, node_index as int, out, sub);
                        assert(graph.equations@[node_index as int] == old(
                            graph,
                        ).equations@[node_index as int]);
                        assert(drive_effect(*old(graph), *graph, node_index as int, out, Err::<
                            Vec<usize>,
                            SolveError,
                        >(e)));
                    }
                    return Err(e);
                },
            }
            let ghost before_restore = *graph;
            graph.set_equation(node_index, original_eq);
            proof {
                lemma_glue_common(*old(graph), mid, before_restore, node_index as int, out, sub);
                assert(graph.equations@ == before_restore.equations@.update(
                    node_index as int,
                    original_eq,
                ));
                assert(graph.equations@[node_index as int]@ == a2);
                assert forall|k: int| 0 <= k < out.appended.len() implies (
                #[trigger] graph.equations@[el0 + k])@ == out.appended[k].0 by {
                    assert(el0 + k != node_index as int);
                    assert(graph.equations@[el0 + k] == before_restore.equations@[el0 + k]);
                }
                assert forall|i: int|
                    0 <= i < el0 && i != node_index as int implies #[trigger] graph.equations@[i]
                    == old(graph).equations@[i] by {
                    assert(graph.equations@[i] == before_restore.equations@[i]);
                }
                assert(out.outcome == Ok::<Seq<ElemV>, SolveError>(a2));
                assert forall|i: int|
                    0 <= i < leaves@.len() implies (#[trigger] leaves@[i]) as int == el0
                    + out.leaves[i] by {
                    assert(out.leaves[i] == sub.leaves[i] + 1);
                }
                assert(leaves@.len() == out.leaves.len());
                assert(drive_effect(*old(graph), *graph, node_index as int, out, Ok::<
                    Vec<usize>,
                    SolveError,
                >(leaves)));
            }
            Ok(leaves)
        } else {
            leaves.push(new_index);
            let ghost before_restore = *graph;
            graph.set_equation(node_index, original_eq);
            proof {
                assert(out.appended == seq![(child, cs0)]);
                assert(out.leaves == seq![0int]);
                assert(out.outcome == Ok::<Seq<ElemV>, SolveError>(a2));
                assert(graph.equations@.len() == el0 + 1);
                assert(graph.equations@[el0]@ == child);
                assert(strs_view(graph.constraints@[cl0]@) == cs0);
                assert(graph.edge_ends@[cl0] == (node_index, el0 as usize));
                assert(graph.equations@[node_index as int]@ == a2);
                assert(leaves@ =~= seq![new_index]);
                assert(drive_effect(*old(graph), *graph, node_index as int, out, Ok::<
                    Vec<usize>,
                    SolveError,
                >(leaves)));
            }
            Ok(leaves)
        }
    }

    /// Solve one equation: build its graph, expand it from the root, and
    /// return the explored graph with its constraint-labeled edges. The
    /// graph is exactly the chain `drive` describes: the root restored to
    /// its normalized state, one node per transformation step holding the
    /// stored equation, and each edge labeled with its constraints.
    pub fn solve_equation(&mut self, equation: &Equation) -> (r: Result<
        EquationGraph,
        SolveError,
    >)
        ensures
            ({
                let out = drive(equation@, 1, 0, SOLVE_DEPTH_CAP as nat);
                match r {
                    Ok(g) => {
                        &&& out.outcome matches Ok(restored)
                        &&& g.wf()
                        &&& g.equations@.len() == 1 + out.appended.len()
                        &&& g.constraints@.len() == out.appended.len()
                        &&& g.equations@[0]@ == restored
                        &&& forall|k: int|
                            0 <= k < out.appended.len() ==> (#[trigger] g.equations@[1 + k])@
                                == out.appended[k].0
                        &&& forall|k: int|
                            0 <= k < out.appended.len() ==> strs_view(
                                (#[trigger] g.constraints@[k])@,
                            ) == out.appended[k].1
                        &&& forall|k: int|
                            0 <= k < out.appended.len() ==> (#[trigger] g.edge_ends@[k]) == (
                                (if k == 0 {
                                    0usize
                                } else {
                                    k as usize
                                }),
                                (1 + k) as usize,
                            )
                    },
                    Err(e) => out.outcome == Err::<Seq<ElemV>, SolveError>(e),
                }
            }),
            final(self).contexts@ == old(self).contexts@,
            final(self).strategies == old(self).strategies,
            final(self).formulas == old(self).formulas,
    {
        let (mut graph, center_index) = EquationGraph::new(equation.duplicate());
        proof {
            assert(graph.equations@[0]@ == equation@);
            assert(graph.equations@.len() == 1);
            assert(graph.constraints@.len() == 0);
        }
        let ghost pre = graph;
        match self.process_graph_node(center_index, &mut graph, SOLVE_DEPTH_CAP) {
            Ok(_) => {
                let glen = graph.equations.len();
                proof {
                    let out = drive(equation@, 1, 0, SOLVE_DEPTH_CAP as nat);
                    assert(glen as int == 1 + out.appended.len());
                    assert(drive(
                        pre.equations@[0]@,
                        pre.equations@.len() as int,
                        pre.constraints@.len() as int,
                        SOLVE_DEPTH_CAP as nat,
                    ) == out);
                    assert forall|k: int| 0 <= k < out.appended.len() implies strs_view(
                        (#[trigger] graph.constraints@[k])@,
                    ) == out.appended[k].1 by {
                        assert(strs_view(
                            graph.constraints@[(pre.constraints@.len() as int) + k]@,
                        ) == out.appended[k].1);
                    }
                    assert forall|k: int| 0 <= k < out.appended.len() implies (
                    #[trigger] graph.edge_ends@[k]) == (
                        (if k == 0 {
                            0usize
                        } else {
                            k as usize
                        }),
                        (1 + k) as usize,
                    ) by {
                        assert(graph.edge_ends@[(pre.constraints@.len() as int) + k] == (
                            (if k == 0 {
                                0usize
                            } else {
                                ((pre.equations@.len() as int) + k - 1) as usize
                            }),
                            ((pre.equations@.len() as int) + k) as usize,
                        ));
                        assert(1 + k < glen as int);
                    }
                }
                Ok(graph)
            },
            Err(e) => Err(e),
        }
    }

    /// Solve every equation of a context, putting the context back when
    /// done: `Ok` when every equation's search succeeded, otherwise the
    /// first failure in equation order, with the context restored either
    /// way.
    #[verifier::rlimit(100)]
    pub fn solve(&mut self, context_uuid: u64) -> (r: Result<(), SolveError>)
        ensures
            (context_uuid >= old(self).contexts@.len() || old(self).contexts@[
                context_uuid as int
            ] is None) ==> r == Err::<(), SolveError>(SolveError::Unsupported)
                && final(self).contexts@ == old(self).contexts@,
            (context_uuid < old(self).contexts@.len() && old(self).contexts@[
                context_uuid as int
            ] is Some) ==> final(self).contexts@ == old(self).contexts@ && (
            match first_solve_error(
                old(self).contexts@[context_uuid as int]->Some_0.equations@,
                0,
            ) {
                None => r is Ok,
                Some(e) => r == Err::<(), SolveError>(e),
            }),
            final(self).strategies == old(self).strategies,
            final(self).formulas == old(self).formulas,
    {
        let context = match self.remove_context(context_uuid) {
            Some(c) => c,
            None => {
                return Err(SolveError::Unsupported);
            },
        };
        let ghost ctx0 = context;
        let ghost eqs = context.equations@;
        let mut outcome: Result<(), SolveError> = Ok(());
        let n = context.equations.len();
        let mut i: usize = 0;
        while i < n
            invariant
                n == context.equations@.len(),
                eqs == context.equations@,
                0 <= i <= n,
                self.contexts@ == old(self).contexts@.update(context_uuid as int, None),
                self.strategies == old(self).strategies,
                self.formulas == old(self).formulas,
                context_uuid < old(self).contexts@.len(),
                old(self).contexts@[context_uuid as int] == Some(ctx0),
                context == ctx0,
                eqs == ctx0.equations@,
                match outcome {
                    Ok(_) => first_solve_error(eqs, 0) == first_solve_error(eqs, i as int),
                    Err(e) => first_solve_error(eqs, 0) == Some(e),
                },
            decreases n - i,
        {
            let eq = &context.equations[i];
            let ghost step = drive(eqs[i as int]@, 1, 0, SOLVE_DEPTH_CAP as nat);
            match self.solve_equation(eq) {
                Ok(_) => {
                    proof {
                        assert(step.outcome is Ok);
                        assert(first_solve_error(eqs, i as int) == first_solve_error(
                            eqs,
                            i as int + 1,
                        ));
                    }
                },
                Err(e) => {
                    proof {
                        assert(step.outcome == Err::<Seq<ElemV>, SolveError>(e));
                        assert(first_solve_error(eqs, i as int) == Some(e));
                    }
                    if matches!(outcome, Ok(())) {
                        outcome = Err(e);
                    }
                },
            }
            i += 1;
        }
        proof {
            assert(first_solve_error(eqs, n as int) is None);
        }
        self.put_context(context_uuid, context);
        proof {
            assert(self.contexts@ == old(self).contexts@.update(context_uuid as int, None).update(
                context_uuid as int,
                Some(ctx0),
            ));
            assert(self.contexts@ =~= old(self).contexts@);
            assert(old(self).contexts@[context_uuid as int]->Some_0.equations@ == eqs);
        }
        outcome
    }
}

/// The first failing equation's error, scanning from `i` in order; `None`
/// when every remaining equation's search succeeds.
pub open spec fn first_solve_error(eqs: Seq<Equation>, i: int) -> Option<SolveError>
    decreases eqs.len() - i,
{
    if i < 0 || i >= eqs.len() {
        None
    } else {
        match drive(eqs[i]@, 1, 0, SOLVE_DEPTH_CAP as nat).outcome {
            Ok(_) => first_solve_error(eqs, i + 1),
            Err(e) => Some(e),
        }
    }
}

} // verus!
