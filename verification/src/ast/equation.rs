//! Equations: an ordered sequence of element sides, semantically joined by
//! the sides' relational operators. The solving engine works on exactly two
//! sides.

use vstd::prelude::*;

use crate::ast::element::{view_elem_seq, ElemV, Element};
use crate::tokenizer::Operation;

verus! {

/// An equation under rewriting: its sides, in order.
#[derive(Debug)]
pub struct Equation {
    pub equation_sides: Vec<Element>,
}

impl View for Equation {
    type V = Seq<ElemV>;

    open spec fn view(&self) -> Seq<ElemV> {
        view_elem_seq(self.equation_sides@)
    }
}

impl Equation {
    pub fn new(equation_sides: Vec<Element>) -> (r: Equation)
        ensures
            r@ == view_elem_seq(equation_sides@),
    {
        Equation { equation_sides }
    }

    /// An exact copy of every side.
    pub fn duplicate(&self) -> (r: Equation)
        ensures
            r@ == self@,
    {
        let mut sides: Vec<Element> = Vec::new();
        let n = self.equation_sides.len();
        let mut i: usize = 0;
        while i < n
            invariant
                n == self.equation_sides@.len(),
                0 <= i <= n,
                sides@.len() == i,
                forall|j: int|
                    0 <= j < i ==> crate::ast::element::view_element(#[trigger] sides@[j])
                        == crate::ast::element::view_element(self.equation_sides@[j]),
            decreases n - i,
        {
            sides.push(self.equation_sides[i].duplicate());
            i += 1;
        }
        proof {
            crate::ast::element::lemma_view_elem_seq(sides@);
            crate::ast::element::lemma_view_elem_seq(self.equation_sides@);
            assert(view_elem_seq(sides@) =~= view_elem_seq(self.equation_sides@));
        }
        Equation { equation_sides: sides }
    }
}

/// One side of an equation before it is joined into an `Equation`,
/// together with the relational operator that followed it in the source.
#[derive(Debug)]
pub struct EquationSide {
    pub element: Element,
    pub operation: Option<Operation>,
}

impl EquationSide {
    pub fn new(element: Element, operation: Option<Operation>) -> (r: Self)
        ensures
            r.element == element,
            r.operation == operation,
    {
        Self { element, operation }
    }
}

/// A parsed equation that has not been placed in a context yet.
#[derive(Debug)]
pub struct NoContextEquation {
    pub sides: Vec<EquationSide>,
}

impl NoContextEquation {
    pub fn new(sides: Vec<EquationSide>) -> (r: Self)
        ensures
            r.sides == sides,
    {
        NoContextEquation { sides }
    }
}

} // verus!
