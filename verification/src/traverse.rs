//! Generic traversal over every element of a tree.
//!
//! Traversal visits every reachable element in a fixed order — `Power`
//! visits base then power, `Modulo` left then right, `Factorial` its
//! child, `Function` its arguments in order, an expression every numerator
//! then every denominator of each product in sequence order — either
//! pre-order (the node before its children) or post-order. A depth limit
//! decrements each level; descending stops once it would go negative, but
//! the node at the limit is still visited.
//!
//! The read-only mode materializes the visit as a list; the owning mode
//! rebuilds the tree through a caller-supplied function whose behaviour is
//! pinned to a specification-level function of the caller's choosing.

use vstd::prelude::*;

use crate::ast::element::{
    lemma_view_elem_seq, lemma_view_prod_seq, view_elem_seq, view_element, view_noe, view_node,
    view_prod_seq, view_product, ElemV, Element, Expression, ExprV, Node, NodeOrExpression, NodeV,
    NoeV, ProdV, Product,
};

verus! {

/// Whether traversal may descend below the current node, and the limit
/// that the children see.
pub open spec fn may_descend(lvl: Option<int>) -> bool {
    match lvl {
        None => true,
        Some(l) => l - 1 >= 0,
    }
}

pub open spec fn next_level(lvl: Option<int>) -> Option<int> {
    match lvl {
        None => None,
        Some(l) => Some(l - 1),
    }
}

// ---------------------------------------------------------------------------
// The visit order, as a sequence.
// ---------------------------------------------------------------------------

pub open spec fn visit_elem(e: ElemV, top_down: bool, lvl: Option<int>) -> Seq<ElemV>
    decreases e, 2int,
{
    let children = if may_descend(lvl) {
        visit_noe(e.body, top_down, next_level(lvl))
    } else {
        Seq::empty()
    };
    if top_down {
        seq![e].add(children)
    } else {
        children.push(e)
    }
}

pub open spec fn visit_noe(n: NoeV, top_down: bool, lvl: Option<int>) -> Seq<ElemV>
    decreases n, 2int,
{
    match n {
        NoeV::Node(nd) => visit_node(nd, top_down, lvl),
        NoeV::Expression(x) => visit_pseq(x.products, top_down, lvl),
    }
}

pub open spec fn visit_node(nd: NodeV, top_down: bool, lvl: Option<int>) -> Seq<ElemV>
    decreases nd, 2int,
{
    match nd {
        NodeV::Number(_) => Seq::empty(),
        NodeV::Variable(_) => Seq::empty(),
        NodeV::Power { base, power } => visit_elem(*base, top_down, lvl).add(
            visit_elem(*power, top_down, lvl),
        ),
        NodeV::Modulo { lhs, rhs } => visit_elem(*lhs, top_down, lvl).add(
            visit_elem(*rhs, top_down, lvl),
        ),
        NodeV::Factorial { child } => visit_elem(*child, top_down, lvl),
        NodeV::Function { name, arguments } => visit_eseq(arguments, top_down, lvl),
    }
}

pub open spec fn visit_eseq(s: Seq<ElemV>, top_down: bool, lvl: Option<int>) -> Seq<ElemV>
    decreases s, 1int,
{
    if s.len() == 0 {
        Seq::empty()
    } else {
        visit_eseq(s.drop_last(), top_down, lvl).add(visit_elem(s.last(), top_down, lvl))
    }
}

pub open spec fn visit_prod(p: ProdV, top_down: bool, lvl: Option<int>) -> Seq<ElemV>
    decreases p, 2int,
{
    visit_eseq(p.numerator, top_down, lvl).add(visit_eseq(p.denominator, top_down, lvl))
}

pub open spec fn visit_pseq(s: Seq<ProdV>, top_down: bool, lvl: Option<int>) -> Seq<ElemV>
    decreases s, 1int,
{
    if s.len() == 0 {
        Seq::empty()
    } else {
        visit_pseq(s.drop_last(), top_down, lvl).add(visit_prod(s.last(), top_down, lvl))
    }
}

// ---------------------------------------------------------------------------
// Read-only traversal: the visit, materialized.
// ---------------------------------------------------------------------------

impl Element {
    /// Every element the traversal visits, in visit order. A caller walks
    /// the returned list instead of passing a stateful visitor in.
    pub fn apply_to_every_element(&self, top_down: bool, max_level: Option<i64>) -> (r: Vec<
        Element,
    >)
        requires
            max_level matches Some(l) ==> l > i64::MIN,
        ensures
            view_elem_seq(r@) == visit_elem(
                self@,
                top_down,
                match max_level {
                    Some(l) => Some(l as int),
                    None => None,
                },
            ),
        decreases crate::is_same::size_elem(self@), 4int,
    {
        let ghost lvl: Option<int> = match max_level {
            Some(l) => Some(l as int),
            None => None,
        };
        let descend = match max_level {
            Some(l) => l - 1 >= 0,
            None => true,
        };
        let child_level = match max_level {
            Some(l) => Some(l - 1),
            None => None,
        };
        let mut out: Vec<Element> = Vec::new();
        if top_down {
            out.push(self.duplicate());
            proof {
                assert(out@.drop_last() =~= Seq::<Element>::empty());
                crate::normalize::lemma_view_eseq_push(out@);
                assert(view_elem_seq(out@) =~= seq![self@]);
            }
        }
        if descend {
            let mut children = visit_noe_exec(&self.node_or_expression, top_down, child_level);
            let ghost outv = view_elem_seq(out@);
            let ghost chv = view_elem_seq(children@);
            proof {
                lemma_view_elem_seq(out@);
                lemma_view_elem_seq(children@);
            }
            out.append(&mut children);
            proof {
                crate::normalize::lemma_view_concat(out@, outv, chv);
            }
        }
        if !top_down {
            let ghost before = out@;
            out.push(self.duplicate());
            proof {
                assert(out@.drop_last() =~= before);
                crate::normalize::lemma_view_eseq_push(out@);
            }
        }
        proof {
            assert(view_elem_seq(out@) =~= visit_elem(self@, top_down, lvl));
        }
        out
    }
}

fn visit_noe_exec(n: &NodeOrExpression, top_down: bool, max_level: Option<i64>) -> (r: Vec<
    Element,
>)
    requires
        max_level matches Some(l) ==> l > i64::MIN,
    ensures
        view_elem_seq(r@) == visit_noe(
            n@,
            top_down,
            match max_level {
                Some(l) => Some(l as int),
                None => None,
            },
        ),
    decreases crate::is_same::size_noe(n@), 3int,
{
    match n {
        NodeOrExpression::Node(nd) => visit_node_exec(nd, top_down, max_level),
        NodeOrExpression::Expression(x) => {
            let ghost xv = view_prod_seq(x.products@);
            proof {
                lemma_view_prod_seq(x.products@);
                assert(n@->Expression_0.products == xv);
            }
            let ghost lvl: Option<int> = match max_level {
                Some(l) => Some(l as int),
                None => None,
            };
            let n2 = x.products.len();
            let mut out: Vec<Element> = Vec::new();
            let mut i: usize = 0;
            proof {
                assert(xv.subrange(0, 0) =~= Seq::<ProdV>::empty());
                assert(view_elem_seq(out@) =~= visit_pseq(xv.subrange(0, 0), top_down, lvl));
                assert(n@ == NoeV::Expression(ExprV { products: xv }));
            }
            while i < n2
                invariant
                    n2 == x.products@.len(),
                    n@ == NoeV::Expression(ExprV { products: xv }),
                    xv == view_prod_seq(x.products@),
                    xv.len() == n2,
                    forall|j: int| 0 <= j < n2 ==> xv[j] == view_product(x.products@[j]),
                    max_level matches Some(l) ==> l > i64::MIN,
                    lvl == (match max_level {
                        Some(l) => Some(l as int),
                        None => None::<int>,
                    }),
                    0 <= i <= n2,
                    view_elem_seq(out@) == visit_pseq(xv.subrange(0, i as int), top_down, lvl),
                decreases n2 - i,
            {
                proof {
                    assert(xv.subrange(0, i as int + 1).drop_last() =~= xv.subrange(
                        0,
                        i as int,
                    ));
                    assert(xv.subrange(0, i as int + 1).last() == xv[i as int]);
                }
                let p = &x.products[i];
                proof {
                    crate::is_same::lemma_size_pseq_elem(xv, i as int);
                    assert(xv[i as int].numerator == view_elem_seq(
                        x.products@[i as int].numerator@,
                    ));
                    assert(xv[i as int].denominator == view_elem_seq(
                        x.products@[i as int].denominator@,
                    ));
                    assert(crate::is_same::size_noe(n@) == 1 + crate::is_same::size_pseq(xv));
                    assert(crate::is_same::size_eseq(xv[i as int].numerator)
                        < crate::is_same::size_prod(xv[i as int]));
                    assert(crate::is_same::size_eseq(xv[i as int].denominator)
                        < crate::is_same::size_prod(xv[i as int]));
                }
                let mut a = visit_eseq_exec(&p.numerator, top_down, max_level);
                let mut b = visit_eseq_exec(&p.denominator, top_down, max_level);
                let ghost outv = view_elem_seq(out@);
                let ghost av = view_elem_seq(a@);
                let ghost bv = view_elem_seq(b@);
                proof {
                    lemma_view_elem_seq(out@);
                    lemma_view_elem_seq(a@);
                    lemma_view_elem_seq(b@);
                }
                out.append(&mut a);
                proof {
                    crate::normalize::lemma_view_concat(out@, outv, av);
                    lemma_view_elem_seq(out@);
                }
                out.append(&mut b);
                proof {
                    crate::normalize::lemma_view_concat(out@, outv.add(av), bv);
                    assert(visit_pseq(xv.subrange(0, i as int + 1), top_down, lvl) == visit_pseq(
                        xv.subrange(0, i as int),
                        top_down,
                        lvl,
                    ).add(visit_prod(xv[i as int], top_down, lvl)));
                    assert(visit_prod(xv[i as int], top_down, lvl) == visit_eseq(
                        xv[i as int].numerator,
                        top_down,
                        lvl,
                    ).add(visit_eseq(xv[i as int].denominator, top_down, lvl)));
                    assert(view_elem_seq(out@) =~= visit_pseq(
                        xv.subrange(0, i as int + 1),
                        top_down,
                        lvl,
                    ));
                }
                i += 1;
            }
            proof {
                assert(xv.subrange(0, n2 as int) =~= xv);
            }
            out
        },
    }
}

fn visit_node_exec(nd: &Node, top_down: bool, max_level: Option<i64>) -> (r: Vec<Element>)
    requires
        max_level matches Some(l) ==> l > i64::MIN,
    ensures
        view_elem_seq(r@) == visit_node(
            nd@,
            top_down,
            match max_level {
                Some(l) => Some(l as int),
                None => None,
            },
        ),
    decreases crate::is_same::size_node(nd@), 2int,
{
    match nd {
        Node::Number(_) => {
            let r: Vec<Element> = Vec::new();
            proof {
                assert(view_elem_seq(r@) =~= Seq::<ElemV>::empty());
            }
            r
        },
        Node::Variable(_) => {
            let r: Vec<Element> = Vec::new();
            proof {
                assert(view_elem_seq(r@) =~= Seq::<ElemV>::empty());
            }
            r
        },
        Node::Power { base, power } => {
            let a = base.apply_to_every_element(top_down, max_level);
            let b = power.apply_to_every_element(top_down, max_level);
            join_two(a, b)
        },
        Node::Modulo { lhs, rhs } => {
            let a = lhs.apply_to_every_element(top_down, max_level);
            let b = rhs.apply_to_every_element(top_down, max_level);
            join_two(a, b)
        },
        Node::Factorial { child } => child.apply_to_every_element(top_down, max_level),
        Node::Function { name, arguments } => {
            proof {
                lemma_view_elem_seq(arguments@);
                assert(nd@->Function_arguments == view_elem_seq(arguments@));
            }
            visit_eseq_exec(arguments, top_down, max_level)
        },
    }
}

/// Concatenate two visit lists.
fn join_two(a: Vec<Element>, b: Vec<Element>) -> (r: Vec<Element>)
    ensures
        view_elem_seq(r@) == view_elem_seq(a@).add(view_elem_seq(b@)),
{
    let ghost av = view_elem_seq(a@);
    let ghost bv = view_elem_seq(b@);
    proof {
        lemma_view_elem_seq(a@);
        lemma_view_elem_seq(b@);
    }
    let mut a = a;
    let mut b = b;
    a.append(&mut b);
    proof {
        crate::normalize::lemma_view_concat(a@, av, bv);
    }
    a
}

fn visit_eseq_exec(v: &Vec<Element>, top_down: bool, max_level: Option<i64>) -> (r: Vec<Element>)
    requires
        max_level matches Some(l) ==> l > i64::MIN,
    ensures
        view_elem_seq(r@) == visit_eseq(
            view_elem_seq(v@),
            top_down,
            match max_level {
                Some(l) => Some(l as int),
                None => None,
            },
        ),
    decreases crate::is_same::size_eseq(view_elem_seq(v@)), 1int,
{
    let ghost sv = view_elem_seq(v@);
    let ghost lvl: Option<int> = match max_level {
        Some(l) => Some(l as int),
        None => None,
    };
    proof {
        lemma_view_elem_seq(v@);
        assert(sv.subrange(0, 0) =~= Seq::<ElemV>::empty());
    }
    let n = v.len();
    let mut out: Vec<Element> = Vec::new();
    let mut i: usize = 0;
    proof {
        assert(view_elem_seq(out@) =~= visit_eseq(sv.subrange(0, 0), top_down, lvl));
    }
    while i < n
        invariant
            n == v@.len(),
            sv == view_elem_seq(v@),
            sv.len() == n,
            forall|j: int| 0 <= j < n ==> sv[j] == view_element(v@[j]),
            max_level matches Some(l) ==> l > i64::MIN,
            lvl == (match max_level {
                Some(l) => Some(l as int),
                None => None::<int>,
            }),
            0 <= i <= n,
            view_elem_seq(out@) == visit_eseq(sv.subrange(0, i as int), top_down, lvl),
        decreases n - i,
    {
        proof {
            assert(sv.subrange(0, i as int + 1).drop_last() =~= sv.subrange(0, i as int));
            assert(sv.subrange(0, i as int + 1).last() == sv[i as int]);
        }
        proof {
            crate::is_same::lemma_size_eseq_elem(sv, i as int);
        }
        let mut a = v[i].apply_to_every_element(top_down, max_level);
        let ghost outv = view_elem_seq(out@);
        let ghost av = view_elem_seq(a@);
        proof {
            lemma_view_elem_seq(out@);
            lemma_view_elem_seq(a@);
        }
        out.append(&mut a);
        proof {
            crate::normalize::lemma_view_concat(out@, outv, av);
            assert(view_elem_seq(out@) =~= visit_eseq(
                sv.subrange(0, i as int + 1),
                top_down,
                lvl,
            ));
        }
        i += 1;
    }
    proof {
        assert(sv.subrange(0, n as int) =~= sv);
    }
    out
}

// ---------------------------------------------------------------------------
// Owning transform: rebuild the tree bottom-up through a function.
// ---------------------------------------------------------------------------

/// The rebuilt tree: children first (down to the depth limit), then the
/// node itself is passed through the transformation. Every rebuilt node
/// loses its analysis cache — the structure may have changed, so a stale
/// cache must not survive; a node below the depth limit is handed to the
/// transformation as it stands.
pub open spec fn into_spec(e: ElemV, gf: spec_fn(ElemV) -> ElemV, lvl: Option<int>) -> ElemV
    decreases e, 2int,
{
    let rebuilt = if may_descend(lvl) {
        ElemV { sign: e.sign, body: into_noe(e.body, gf, next_level(lvl)), cache: None }
    } else {
        e
    };
    gf(rebuilt)
}

pub open spec fn into_noe(n: NoeV, gf: spec_fn(ElemV) -> ElemV, lvl: Option<int>) -> NoeV
    decreases n, 2int,
{
    match n {
        NoeV::Node(nd) => NoeV::Node(into_node(nd, gf, lvl)),
        NoeV::Expression(x) => NoeV::Expression(ExprV { products: into_pseq(x.products, gf, lvl) }),
    }
}

pub open spec fn into_node(nd: NodeV, gf: spec_fn(ElemV) -> ElemV, lvl: Option<int>) -> NodeV
    decreases nd, 2int,
{
    match nd {
        NodeV::Number(r) => NodeV::Number(r),
        NodeV::Variable(name) => NodeV::Variable(name),
        NodeV::Power { base, power } => NodeV::Power {
            base: Box::new(into_spec(*base, gf, lvl)),
            power: Box::new(into_spec(*power, gf, lvl)),
        },
        NodeV::Modulo { lhs, rhs } => NodeV::Modulo {
            lhs: Box::new(into_spec(*lhs, gf, lvl)),
            rhs: Box::new(into_spec(*rhs, gf, lvl)),
        },
        NodeV::Factorial { child } => NodeV::Factorial { child: Box::new(into_spec(*child, gf, lvl)) },
        NodeV::Function { name, arguments } => NodeV::Function {
            name,
            arguments: into_eseq(arguments, gf, lvl),
        },
    }
}

pub open spec fn into_eseq(s: Seq<ElemV>, gf: spec_fn(ElemV) -> ElemV, lvl: Option<int>) -> Seq<
    ElemV,
>
    decreases s, 1int,
{
    if s.len() == 0 {
        Seq::empty()
    } else {
        into_eseq(s.drop_last(), gf, lvl).push(into_spec(s.last(), gf, lvl))
    }
}

pub open spec fn into_prod(p: ProdV, gf: spec_fn(ElemV) -> ElemV, lvl: Option<int>) -> ProdV
    decreases p, 2int,
{
    ProdV {
        numerator: into_eseq(p.numerator, gf, lvl),
        denominator: into_eseq(p.denominator, gf, lvl),
    }
}

pub open spec fn into_pseq(s: Seq<ProdV>, gf: spec_fn(ElemV) -> ElemV, lvl: Option<int>) -> Seq<
    ProdV,
>
    decreases s, 1int,
{
    if s.len() == 0 {
        Seq::empty()
    } else {
        into_pseq(s.drop_last(), gf, lvl).push(into_prod(s.last(), gf, lvl))
    }
}

/// The caller's function agrees with a chosen specification-level
/// transformation on every input and never has a precondition.
pub open spec fn pinned_to<F: Fn(Element) -> Element>(f: F, gf: spec_fn(ElemV) -> ElemV) -> bool {
    &&& forall|x: Element| #[trigger] call_requires(f, (x,))
    &&& forall|x: Element, y: Element|
        #[trigger] call_ensures(f, (x,), y) ==> view_element(y) == gf(view_element(x))
}

impl Element {
    /// Rebuild the tree bottom-up, passing every element (up to the depth
    /// limit) through `f`, whose behaviour is pinned to `gf`. Only the
    /// bottom-up order is offered: a pre-order owning transform would
    /// recurse into whatever `f` returned, which no termination measure
    /// bounds.
    pub fn apply_to_every_element_into<F: Fn(Element) -> Element>(
        self,
        f: &F,
        max_level: Option<i64>,
        Ghost(gf): Ghost<spec_fn(ElemV) -> ElemV>,
    ) -> (r: Element)
        requires
            pinned_to(*f, gf),
            max_level matches Some(l) ==> l > i64::MIN,
        ensures
            view_element(r) == into_spec(
                self@,
                gf,
                match max_level {
                    Some(l) => Some(l as int),
                    None => None,
                },
            ),
        decreases crate::is_same::size_elem(self@), 4int,
    {
        let ghost lvl: Option<int> = match max_level {
            Some(l) => Some(l as int),
            None => None,
        };
        let descend = match max_level {
            Some(l) => l - 1 >= 0,
            None => true,
        };
        let child_level = match max_level {
            Some(l) => Some(l - 1),
            None => None,
        };
        let ghost sv = self@;
        let rebuilt = if descend {
            let body = into_noe_exec(&self.node_or_expression, f, child_level, Ghost(gf));
            let sign = self.sign;
            let e2 = Element { sign, node_or_expression: body, cache: None };
            proof {
                assert(view_element(e2) =~~= (ElemV {
                    sign: sv.sign,
                    body: into_noe(sv.body, gf, next_level(lvl)),
                    cache: None,
                }));
            }
            e2
        } else {
            self
        };
        let ghost rv = view_element(rebuilt);
        let r = f(rebuilt);
        proof {
            assert(view_element(r) == gf(rv));
            assert(into_spec(sv, gf, lvl) == gf(rv));
        }
        r
    }
}

fn into_noe_exec<F: Fn(Element) -> Element>(
    n: &NodeOrExpression,
    f: &F,
    max_level: Option<i64>,
    Ghost(gf): Ghost<spec_fn(ElemV) -> ElemV>,
) -> (r: NodeOrExpression)
    requires
        pinned_to(*f, gf),
        max_level matches Some(l) ==> l > i64::MIN,
    ensures
        view_noe(r) == into_noe(
            view_noe(*n),
            gf,
            match max_level {
                Some(l) => Some(l as int),
                None => None,
            },
        ),
    decreases crate::is_same::size_noe(view_noe(*n)), 3int,
{
    let ghost nv = view_noe(*n);
    let ghost lvl: Option<int> = match max_level {
        Some(l) => Some(l as int),
        None => None,
    };
    match n {
        NodeOrExpression::Node(nd) => NodeOrExpression::Node(
            into_node_exec(nd, f, max_level, Ghost(gf)),
        ),
        NodeOrExpression::Expression(x) => {
            let ghost xv = view_prod_seq(x.products@);
            proof {
                lemma_view_prod_seq(x.products@);
                assert(nv == NoeV::Expression(ExprV { products: xv }));
            }
            let n2 = x.products.len();
            let mut out: Vec<Product> = Vec::new();
            let mut i: usize = 0;
            proof {
                lemma_into_pseq(xv, gf, lvl);
            }
            while i < n2
                invariant
                    n2 == xv.len(),
                    n2 == x.products@.len(),
                    nv == NoeV::Expression(ExprV { products: xv }),
                    nv == view_noe(*n),
                    crate::is_same::size_noe(nv) == 1 + crate::is_same::size_pseq(xv),
                    xv == view_prod_seq(x.products@),
                    forall|j: int| 0 <= j < n2 ==> xv[j] == view_product(x.products@[j]),
                    pinned_to(*f, gf),
                    max_level matches Some(l) ==> l > i64::MIN,
                    lvl == (match max_level {
                        Some(l) => Some(l as int),
                        None => None::<int>,
                    }),
                    0 <= i <= n2,
                    out@.len() == i,
                    forall|j: int|
                        0 <= j < i ==> view_product(#[trigger] out@[j]) == into_prod(
                            xv[j],
                            gf,
                            lvl,
                        ),
                decreases n2 - i,
            {
                let p = crate::ast::element::dup_prod(&x.products[i]);
                proof {
                    assert(view_product(p) == xv[i as int]);
                    crate::is_same::lemma_size_pseq_elem(xv, i as int);
                    assert(crate::is_same::size_noe(nv) == 1 + crate::is_same::size_pseq(xv));
                    assert(crate::is_same::size_eseq(xv[i as int].numerator)
                        < crate::is_same::size_prod(xv[i as int]));
                    assert(crate::is_same::size_eseq(xv[i as int].denominator)
                        < crate::is_same::size_prod(xv[i as int]));
                    lemma_view_elem_seq(p.numerator@);
                    lemma_view_elem_seq(p.denominator@);
                    assert(view_elem_seq(p.numerator@) == xv[i as int].numerator);
                    assert(view_elem_seq(p.denominator@) == xv[i as int].denominator);
                }
                let num = into_eseq_exec(&p.numerator, f, max_level, Ghost(gf));
                let den = into_eseq_exec(&p.denominator, f, max_level, Ghost(gf));
                let q = Product { numerator: num, denominator: den };
                proof {
                    assert(view_product(q) =~~= into_prod(xv[i as int], gf, lvl));
                }
                out.push(q);
                i += 1;
            }
            proof {
                lemma_view_prod_seq(out@);
                lemma_into_pseq(xv, gf, lvl);
                assert(view_prod_seq(out@) =~= into_pseq(xv, gf, lvl));
            }
            let r = NodeOrExpression::Expression(Expression { products: out });
            proof {
                assert(view_noe(r) =~~= into_noe(nv, gf, lvl));
            }
            r
        },
    }
}

fn into_node_exec<F: Fn(Element) -> Element>(
    nd: &Node,
    f: &F,
    max_level: Option<i64>,
    Ghost(gf): Ghost<spec_fn(ElemV) -> ElemV>,
) -> (r: Node)
    requires
        pinned_to(*f, gf),
        max_level matches Some(l) ==> l > i64::MIN,
    ensures
        view_node(r) == into_node(
            view_node(*nd),
            gf,
            match max_level {
                Some(l) => Some(l as int),
                None => None,
            },
        ),
    decreases crate::is_same::size_node(view_node(*nd)), 2int,
{
    let ghost nv = view_node(*nd);
    let ghost lvl: Option<int> = match max_level {
        Some(l) => Some(l as int),
        None => None,
    };
    match nd {
        Node::Number(x) => Node::Number(*x),
        Node::Variable(s) => Node::Variable(s.clone()),
        Node::Power { base, power } => {
            let b2 = base.duplicate().apply_to_every_element_into(f, max_level, Ghost(gf));
            let p2 = power.duplicate().apply_to_every_element_into(f, max_level, Ghost(gf));
            let r = Node::Power { base: Box::new(b2), power: Box::new(p2) };
            proof {
                assert(view_node(r) =~~= into_node(nv, gf, lvl));
            }
            r
        },
        Node::Modulo { lhs, rhs } => {
            let l2 = lhs.duplicate().apply_to_every_element_into(f, max_level, Ghost(gf));
            let r2 = rhs.duplicate().apply_to_every_element_into(f, max_level, Ghost(gf));
            let r = Node::Modulo { lhs: Box::new(l2), rhs: Box::new(r2) };
            proof {
                assert(view_node(r) =~~= into_node(nv, gf, lvl));
            }
            r
        },
        Node::Factorial { child } => {
            let c2 = child.duplicate().apply_to_every_element_into(f, max_level, Ghost(gf));
            let r = Node::Factorial { child: Box::new(c2) };
            proof {
                assert(view_node(r) =~~= into_node(nv, gf, lvl));
            }
            r
        },
        Node::Function { name, arguments } => {
            proof {
                lemma_view_elem_seq(arguments@);
                assert(nv->Function_arguments == view_elem_seq(arguments@));
            }
            let args = into_eseq_exec(arguments, f, max_level, Ghost(gf));
            let r = Node::Function { name: name.clone(), arguments: args };
            proof {
                assert(view_node(r) =~~= into_node(nv, gf, lvl));
            }
            r
        },
    }
}

fn into_eseq_exec<F: Fn(Element) -> Element>(
    v: &Vec<Element>,
    f: &F,
    max_level: Option<i64>,
    Ghost(gf): Ghost<spec_fn(ElemV) -> ElemV>,
) -> (r: Vec<Element>)
    requires
        pinned_to(*f, gf),
        max_level matches Some(l) ==> l > i64::MIN,
    ensures
        view_elem_seq(r@) == into_eseq(
            view_elem_seq(v@),
            gf,
            match max_level {
                Some(l) => Some(l as int),
                None => None,
            },
        ),
    decreases crate::is_same::size_eseq(view_elem_seq(v@)), 1int,
{
    let ghost sv = view_elem_seq(v@);
    let ghost lvl: Option<int> = match max_level {
        Some(l) => Some(l as int),
        None => None,
    };
    proof {
        lemma_view_elem_seq(v@);
    }
    let n = v.len();
    let mut out: Vec<Element> = Vec::new();
    let mut i: usize = 0;
    while i < n
        invariant
            n == sv.len(),
            n == v@.len(),
            sv == view_elem_seq(v@),
            forall|j: int| 0 <= j < n ==> sv[j] == view_element(v@[j]),
            pinned_to(*f, gf),
            max_level matches Some(l) ==> l > i64::MIN,
            lvl == (match max_level {
                Some(l) => Some(l as int),
                None => None::<int>,
            }),
            0 <= i <= n,
            out@.len() == i,
            forall|j: int|
                0 <= j < i ==> view_element(#[trigger] out@[j]) == into_spec(sv[j], gf, lvl),
        decreases n - i,
    {
        let e = v[i].duplicate();
        proof {
            assert(view_element(e) == sv[i as int]);
            crate::is_same::lemma_size_eseq_elem(sv, i as int);
        }
        let e2 = e.apply_to_every_element_into(f, max_level, Ghost(gf));
        out.push(e2);
        i += 1;
    }
    proof {
        lemma_view_elem_seq(out@);
        lemma_into_eseq(sv, gf, lvl);
        assert(view_elem_seq(out@) =~= into_eseq(sv, gf, lvl));
    }
    out
}

pub proof fn lemma_into_eseq(s: Seq<ElemV>, gf: spec_fn(ElemV) -> ElemV, lvl: Option<int>)
    ensures
        into_eseq(s, gf, lvl).len() == s.len(),
        forall|i: int| 0 <= i < s.len() ==> into_eseq(s, gf, lvl)[i] == into_spec(s[i], gf, lvl),
    decreases s,
{
    if s.len() > 0 {
        lemma_into_eseq(s.drop_last(), gf, lvl);
    }
}

pub proof fn lemma_into_pseq(s: Seq<ProdV>, gf: spec_fn(ElemV) -> ElemV, lvl: Option<int>)
    ensures
        into_pseq(s, gf, lvl).len() == s.len(),
        forall|i: int| 0 <= i < s.len() ==> into_pseq(s, gf, lvl)[i] == into_prod(s[i], gf, lvl),
    decreases s,
{
    if s.len() > 0 {
        lemma_into_pseq(s.drop_last(), gf, lvl);
    }
}

// ---------------------------------------------------------------------------
// Walking toward one variable.
// ---------------------------------------------------------------------------

/// A leaf holding exactly the sought variable.
pub open spec fn is_target_var(e: ElemV, name: Seq<char>) -> bool {
    e.body matches NoeV::Node(NodeV::Variable(v)) && v == name
}

/// The visit order with every occurrence of the sought variable removed.
pub open spec fn stack_filter(s: Seq<ElemV>, name: Seq<char>) -> Seq<ElemV>
    decreases s,
{
    if s.len() == 0 {
        Seq::empty()
    } else if is_target_var(s.last(), name) {
        stack_filter(s.drop_last(), name)
    } else {
        stack_filter(s.drop_last(), name).push(s.last())
    }
}

/// The elements passed on the way to the variable: the whole pre-order
/// visit, with the variable's own occurrences left out.
pub fn build_stack(side: &Element, variable_name: &str) -> (r: Vec<Element>)
    ensures
        view_elem_seq(r@) == stack_filter(visit_elem(side@, true, None), variable_name@),
{
    let all = side.apply_to_every_element(true, None);
    let ghost av = view_elem_seq(all@);
    proof {
        lemma_view_elem_seq(all@);
        assert(av.subrange(0, 0) =~= Seq::<ElemV>::empty());
    }
    let target = String::from_str(variable_name);
    let n = all.len();
    let mut out: Vec<Element> = Vec::new();
    let mut i: usize = 0;
    while i < n
        invariant
            n == all@.len(),
            av == view_elem_seq(all@),
            av == visit_elem(side@, true, None),
            av.len() == n,
            forall|j: int| 0 <= j < n ==> av[j] == view_element(all@[j]),
            target@ == variable_name@,
            0 <= i <= n,
            view_elem_seq(out@) == stack_filter(av.subrange(0, i as int), variable_name@),
        decreases n - i,
    {
        proof {
            assert(av.subrange(0, i as int + 1).drop_last() =~= av.subrange(0, i as int));
            assert(av.subrange(0, i as int + 1).last() == av[i as int]);
        }
        let e = &all[i];
        let matches_target = match &e.node_or_expression {
            NodeOrExpression::Node(Node::Variable(v)) => *v == target,
            _ => false,
        };
        proof {
            assert(matches_target == is_target_var(av[i as int], variable_name@));
        }
        if !matches_target {
            let ghost before = out@;
            out.push(e.duplicate());
            proof {
                assert(out@.drop_last() =~= before);
                crate::normalize::lemma_view_eseq_push(out@);
            }
        }
        i += 1;
    }
    proof {
        assert(av.subrange(0, n as int) =~= av);
    }
    out
}

/// How many leading sides carry at most one distinct variable.
pub open spec fn supported_prefix(sides: Seq<ElemV>, i: int) -> int
    decreases sides.len() - i,
{
    if i < 0 || i >= sides.len() {
        i
    } else if crate::analyze::vars_of(sides[i]).len() > 1 {
        i
    } else {
        supported_prefix(sides, i + 1)
    }
}

/// Walk each side of a two-sided equation toward the variable, collecting
/// the element stacks, and stopping at a side with several variables.
pub fn solve_one_variable(equation: &crate::ast::equation::Equation, variable_name: &str) -> (r:
    Vec<Vec<Element>>)
    requires
        forall|i: int|
            0 <= i < equation@.len() ==> crate::analyze::analyzed_elem(#[trigger] equation@[i]),
    ensures
        equation@.len() != 2 ==> r@.len() == 0,
        equation@.len() == 2 ==> r@.len() == supported_prefix(equation@, 0),
        forall|i: int|
            0 <= i < r@.len() ==> view_elem_seq((#[trigger] r@[i])@) == stack_filter(
                visit_elem(equation@[i], true, None),
                variable_name@,
            ),
{
    let ghost sv = equation@;
    proof {
        lemma_view_elem_seq(equation.equation_sides@);
    }
    let mut stacks: Vec<Vec<Element>> = Vec::new();
    if equation.equation_sides.len() != 2 {
        return stacks;
    }
    let n = equation.equation_sides.len();
    let mut i: usize = 0;
    let mut stopped = false;
    while i < n && !stopped
        invariant
            n == equation.equation_sides@.len(),
            sv == equation@,
            sv.len() == n,
            forall|j: int| 0 <= j < n ==> sv[j] == view_element(equation.equation_sides@[j]),
            forall|j: int|
                0 <= j < n ==> crate::analyze::analyzed_elem(#[trigger] sv[j]),
            0 <= i <= n,
            forall|j: int| 0 <= j < i ==> crate::analyze::vars_of(#[trigger] sv[j]).len() <= 1,
            stopped ==> i < n && crate::analyze::vars_of(sv[i as int]).len() > 1,
            stacks@.len() == i,
            forall|j: int|
                0 <= j < i ==> view_elem_seq((#[trigger] stacks@[j])@) == stack_filter(
                    visit_elem(sv[j], true, None),
                    variable_name@,
                ),
        decreases n - i, if stopped { 0int } else { 1int },
    {
        proof {
            assert(crate::analyze::analyzed_elem(sv[i as int]));
        }
        let vc = crate::inverse::variable_count(&equation.equation_sides[i]);
        if vc > 1 {
            stopped = true;
        } else {
            stacks.push(build_stack(&equation.equation_sides[i], variable_name));
            i += 1;
        }
    }
    proof {
        lemma_supported_prefix(sv, i as int, stopped);
    }
    stacks
}

proof fn lemma_supported_prefix(s: Seq<ElemV>, stop: int, stopped: bool)
    requires
        0 <= stop <= s.len(),
        forall|j: int| 0 <= j < stop ==> crate::analyze::vars_of(#[trigger] s[j]).len() <= 1,
        stopped ==> stop < s.len() && crate::analyze::vars_of(s[stop]).len() > 1,
        !stopped ==> stop == s.len(),
    ensures
        supported_prefix(s, 0) == stop,
{
    lemma_supported_prefix_from(s, 0, stop, stopped);
}

proof fn lemma_supported_prefix_from(s: Seq<ElemV>, i: int, stop: int, stopped: bool)
    requires
        0 <= i <= stop <= s.len(),
        forall|j: int| 0 <= j < stop ==> crate::analyze::vars_of(#[trigger] s[j]).len() <= 1,
        stopped ==> stop < s.len() && crate::analyze::vars_of(s[stop]).len() > 1,
        !stopped ==> stop == s.len(),
    ensures
        supported_prefix(s, i) == stop,
    decreases s.len() - i,
{
    if i < stop {
        lemma_supported_prefix_from(s, i + 1, stop, stopped);
    }
}

} // verus!
