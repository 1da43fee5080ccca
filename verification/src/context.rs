//! Contexts and the application state.
//!
//! Equations and elements live in arenas behind plain numeric handles:
//! adding returns the handle, lookup and removal go through it. Nothing is
//! shared or aliased; a context is taken out of the application while its
//! equations are being solved and put back afterwards.

use vstd::prelude::*;

use crate::ast::element::{view_element, Element, ElemV};
use crate::ast::equation::{Equation, EquationSide, NoContextEquation};
use crate::solve::Strategy;
use crate::tokenizer::ParseError;

verus! {

/// Why a source string could not become an equation.
#[derive(Debug, Clone, Copy, PartialEq, Eq, Structural)]
pub enum TokensToEquationError {
    UnexpectedToken(usize),
    MissingOperands,
}

/// Why an equation could not be created from source text.
#[derive(Debug, Clone, Copy, PartialEq, Eq, Structural)]
pub enum CreateEquationError {
    ParseError(ParseError),
    TokensToEquationError(TokensToEquationError),
}

/// A store of elements and equations under one handle.
#[derive(Debug)]
pub struct Context {
    pub elements: Vec<Element>,
    pub equations: Vec<Equation>,
    pub uuid: u64,
}

impl Context {
    pub fn new() -> (r: Context)
        ensures
            r.elements@.len() == 0,
            r.equations@.len() == 0,
            r.uuid == 0,
    {
        Context { elements: Vec::new(), equations: Vec::new(), uuid: 0 }
    }

    /// Look an element up by its handle.
    pub fn get_element(&self, id: usize) -> (r: Option<&Element>)
        ensures
            match r {
                Some(e) => id < self.elements@.len() && e == self.elements@[id as int],
                None => id >= self.elements@.len(),
            },
    {
        if id < self.elements.len() {
            Some(&self.elements[id])
        } else {
            None
        }
    }

    /// Replace an element behind its handle.
    pub fn set_element(&mut self, id: usize, element: Element)
        requires
            id < old(self).elements@.len(),
        ensures
            final(self).elements@ == old(self).elements@.update(id as int, element),
            final(self).equations == old(self).equations,
            final(self).uuid == old(self).uuid,
    {
        self.elements.set(id, element);
    }

    /// Store an equation; its handle is its slot.
    pub fn insert_equation(&mut self, equation: Equation) -> (r: u64)
        requires
            old(self).equations@.len() < 0xFFFF_FFFFusize,
        ensures
            final(self).equations@ == old(self).equations@.push(equation),
            r == old(self).equations@.len(),
            final(self).elements == old(self).elements,
            final(self).uuid == old(self).uuid,
    {
        let id = self.equations.len() as u64;
        self.equations.push(equation);
        id
    }

    /// Solving a whole context is driven from the application, which owns
    /// the strategies; the context itself has nothing further to do.
    pub fn solve(&mut self)
        ensures
            *final(self) == *old(self),
    {
    }
}

/// The application: contexts behind handles, and the registered strategy
/// list. The list records which strategies exist, in registration order;
/// dispatch itself is the closed match in `Equation::apply_strategy`, and
/// the solve driver applies its fixed flatten/simplify/inverse order
/// directly rather than looking strategies up by name.
#[derive(Debug)]
pub struct App {
    pub formulas: u64,
    pub contexts: Vec<Option<Context>>,
    pub strategies: Vec<Strategy>,
}

impl App {
    /// A fresh application with the standard strategies registered.
    pub fn new() -> (r: App)
        ensures
            r.contexts@.len() == 0,
            r.strategies@ == seq![Strategy::Simplify, Strategy::ApplyInverse, Strategy::Flatten],
            r.formulas == 0,
    {
        let mut app = App { formulas: 0, contexts: Vec::new(), strategies: Vec::new() };
        app.add_strategies();
        proof {
            assert(app.strategies@ =~= seq![
                Strategy::Simplify,
                Strategy::ApplyInverse,
                Strategy::Flatten,
            ]);
        }
        app
    }

    /// Register the rewrite strategies, in their standard order.
    pub fn add_strategies(&mut self)
        ensures
            final(self).strategies@ == old(self).strategies@.push(Strategy::Simplify).push(
                Strategy::ApplyInverse,
            ).push(Strategy::Flatten),
            final(self).contexts == old(self).contexts,
            final(self).formulas == old(self).formulas,
    {
        self.strategies.push(crate::solve::get_simplify());
        self.strategies.push(crate::solve::get_apply_inverse());
        self.strategies.push(crate::solve::get_flatten());
    }

    /// Store a context; its handle is its slot.
    pub fn add_context(&mut self, context: Context) -> (r: u64)
        requires
            old(self).contexts@.len() < 0xFFFF_FFFFusize,
        ensures
            r == old(self).contexts@.len(),
            final(self).contexts@.len() == old(self).contexts@.len() + 1,
            final(self).contexts@.last() matches Some(c) && c.uuid == r && c.elements
                == context.elements && c.equations == context.equations,
            forall|i: int|
                0 <= i < old(self).contexts@.len() ==> final(self).contexts@[i] == old(
                    self,
                ).contexts@[i],
    {
        let id = self.contexts.len() as u64;
        let mut context = context;
        context.uuid = id;
        self.contexts.push(Some(context));
        id
    }

    pub fn get_context(&self, uuid: u64) -> (r: Option<&Context>)
        ensures
            match r {
                Some(c) => uuid < self.contexts@.len() && self.contexts@[uuid as int] == Some(*c),
                None => uuid >= self.contexts@.len() || self.contexts@[uuid as int] is None,
            },
    {
        let n = self.contexts.len();
        if uuid < n as u64 {
            match &self.contexts[uuid as usize] {
                Some(c) => Some(c),
                None => None,
            }
        } else {
            None
        }
    }

    /// Take a context out of the application, leaving its slot empty.
    pub fn remove_context(&mut self, uuid: u64) -> (r: Option<Context>)
        ensures
            match r {
                Some(c) => {
                    &&& uuid < old(self).contexts@.len()
                    &&& old(self).contexts@[uuid as int] == Some(c)
                    &&& final(self).contexts@ == old(self).contexts@.update(uuid as int, None)
                },
                None => {
                    &&& uuid >= old(self).contexts@.len() || old(self).contexts@[
                        uuid as int
                    ] is None
                    &&& final(self).contexts@ == old(self).contexts@
                },
            },
            final(self).strategies == old(self).strategies,
            final(self).formulas == old(self).formulas,
    {
        let n = self.contexts.len();
        if uuid < n as u64 {
            let i = uuid as usize;
            proof {
                assert(i as int == uuid as int);
            }
            let mut taken: Option<Context> = None;
            self.contexts.set_and_swap(i, &mut taken);
            match taken {
                Some(c) => Some(c),
                None => {
                    let mut back: Option<Context> = None;
                    self.contexts.set_and_swap(i, &mut back);
                    proof {
                        assert(self.contexts@ =~= old(self).contexts@);
                    }
                    None
                },
            }
        } else {
            None
        }
    }

    /// Put a context back into its slot.
    pub fn put_context(&mut self, uuid: u64, context: Context)
        requires
            uuid < old(self).contexts@.len(),
        ensures
            final(self).contexts@ == old(self).contexts@.update(uuid as int, Some(context)),
            final(self).strategies == old(self).strategies,
            final(self).formulas == old(self).formulas,
    {
        let n = self.contexts.len();
        let i = uuid as usize;
        proof {
            assert(i as int == uuid as int);
        }
        self.contexts.set(i, Some(context));
    }

    /// Build an equation from parsed sides and store it in a context; the
    /// sides' relational operators are not interpreted yet.
    pub fn add_equation(&mut self, ctx_uuid: u64, input: NoContextEquation) -> (r: Option<u64>)
        ensures
            match r {
                Some(id) => equation_added(
                    *old(self),
                    *final(self),
                    ctx_uuid,
                    input_sides_view(input.sides@),
                    id,
                ),
                None => {
                    &&& add_refused(*old(self), ctx_uuid)
                    &&& final(self).contexts@ == old(self).contexts@
                },
            },
            final(self).strategies == old(self).strategies,
            final(self).formulas == old(self).formulas,
    {
        let ghost inv = input_sides_view(input.sides@);
        let mut sides: Vec<Element> = Vec::new();
        let n = input.sides.len();
        let mut i: usize = 0;
        while i < n
            invariant
                n == input.sides@.len(),
                inv == input_sides_view(input.sides@),
                inv.len() == n,
                0 <= i <= n,
                sides@.len() == i,
                forall|j: int| 0 <= j < i ==> view_element(#[trigger] sides@[j]) == inv[j],
            decreases n - i,
        {
            let side = &input.sides[i];
            sides.push(side.element.duplicate());
            i += 1;
        }
        proof {
            crate::ast::element::lemma_view_elem_seq(sides@);
            assert(crate::ast::element::view_elem_seq(sides@) =~= inv);
        }
        let mut equation = Equation::new(sides);
        equation.flatten();
        proof {
            assert(equation@ == crate::solve::flat_sides(inv));
        }
        match self.remove_context(ctx_uuid) {
            Some(mut context) => {
                let ghost ctx0 = context;
                if context.equations.len() >= 0xFFFF_FFFFusize {
                    self.put_context(ctx_uuid, context);
                    proof {
                        assert(self.contexts@ =~= old(self).contexts@);
                    }
                    return None;
                }
                let id = context.insert_equation(equation);
                self.put_context(ctx_uuid, context);
                proof {
                    assert(old(self).contexts@[ctx_uuid as int] == Some(ctx0));
                    assert(self.contexts@ =~= old(self).contexts@.update(
                        ctx_uuid as int,
                        self.contexts@[ctx_uuid as int],
                    ));
                    assert(equation_added(*old(self), *self, ctx_uuid, inv, id));
                }
                Some(id)
            },
            None => None,
        }
    }

    /// Create and store an equation from a parse outcome, passing a parse
    /// failure through.
    pub fn try_add_equation(&mut self, ctx_uuid: u64, input: Result<
        NoContextEquation,
        CreateEquationError,
    >) -> (r: Result<u64, CreateEquationError>)
        ensures
            input matches Err(e) ==> r == Err::<u64, CreateEquationError>(e)
                && final(self).contexts@ == old(self).contexts@,
            input matches Ok(nc) ==> (match r {
                Ok(id) => equation_added(
                    *old(self),
                    *final(self),
                    ctx_uuid,
                    input_sides_view(nc.sides@),
                    id,
                ),
                Err(e) => {
                    &&& e == CreateEquationError::TokensToEquationError(
                        TokensToEquationError::MissingOperands,
                    )
                    &&& add_refused(*old(self), ctx_uuid)
                    &&& final(self).contexts@ == old(self).contexts@
                },
            }),
            final(self).strategies == old(self).strategies,
            final(self).formulas == old(self).formulas,
    {
        match input {
            Ok(no_ctx) => match self.add_equation(ctx_uuid, no_ctx) {
                Some(id) => Ok(id),
                None => Err(
                    CreateEquationError::TokensToEquationError(
                        TokensToEquationError::MissingOperands,
                    ),
                ),
            },
            Err(e) => Err(e),
        }
    }
}

/// The element views of parsed sides, in order.
pub open spec fn input_sides_view(s: Seq<EquationSide>) -> Seq<ElemV> {
    Seq::new(s.len(), |i: int| view_element(s[i].element))
}

/// Adding an equation succeeded: the addressed context gained exactly one
/// equation — the flattened input sides — under the returned handle, and
/// nothing else moved.
pub open spec fn equation_added(
    pre: App,
    post: App,
    ctx_uuid: u64,
    sides: Seq<ElemV>,
    id: u64,
) -> bool {
    &&& ctx_uuid < pre.contexts@.len()
    &&& pre.contexts@[ctx_uuid as int] matches Some(c)
    &&& c.equations@.len() < 0xFFFF_FFFFusize
    &&& id == c.equations@.len()
    &&& post.contexts@.len() == pre.contexts@.len()
    &&& post.contexts@[ctx_uuid as int] matches Some(c2)
    &&& post.contexts@[ctx_uuid as int]->Some_0.elements == pre.contexts@[
        ctx_uuid as int
    ]->Some_0.elements
    &&& post.contexts@[ctx_uuid as int]->Some_0.uuid == pre.contexts@[
        ctx_uuid as int
    ]->Some_0.uuid
    &&& post.contexts@[ctx_uuid as int]->Some_0.equations@ == pre.contexts@[
        ctx_uuid as int
    ]->Some_0.equations@.push(
        post.contexts@[ctx_uuid as int]->Some_0.equations@.last(),
    )
    &&& post.contexts@[ctx_uuid as int]->Some_0.equations@.last()@ == crate::solve::flat_sides(
        sides,
    )
    &&& forall|i: int|
        0 <= i < pre.contexts@.len() && i != ctx_uuid as int ==> #[trigger] post.contexts@[i]
            == pre.contexts@[i]
}

/// Why adding an equation is refused: no such context, or its arena full.
pub open spec fn add_refused(pre: App, ctx_uuid: u64) -> bool {
    ||| ctx_uuid >= pre.contexts@.len()
    ||| pre.contexts@[ctx_uuid as int] is None
    ||| pre.contexts@[ctx_uuid as int]->Some_0.equations@.len() >= 0xFFFF_FFFFusize
}

} // verus!
