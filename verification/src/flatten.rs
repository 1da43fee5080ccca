//! The `flatten` rewrite pass.
//!
//! Trees built by composing binary operators nest expressions purely for
//! construction convenience. Flattening collapses that nesting into the
//! canonical single-level shape, bottom-up:
//!
//! * a positive factor that is an expression with exactly one product is
//!   spliced into its surrounding product, numerator into numerator and
//!   denominator into denominator (swapped when the factor sat in the
//!   denominator), recursively;
//! * a product that merely wraps a lone expression element is replaced by
//!   that expression's products; under a negative wrapper each inner
//!   product is sign-inverted on its leading element first;
//! * an expression holding exactly one product with a single numerator
//!   factor and no denominator unwraps to that factor, multiplying signs.
//!
//! Every function has a specification-level mirror, and the executable
//! code returns exactly the mirror's result.

use vstd::prelude::*;

use crate::ast::element::{
    lemma_view_elem_seq, lemma_view_prod_seq, view_elem_seq, view_element, view_node,
    view_prod_seq, view_product, ElemV, Element, Expression, ExprV, Node, NodeOrExpression, NodeV,
    NoeV, ProdV, Product, Sign,
};
use crate::normalize::{lemma_view_concat, lemma_view_eseq_push, lemma_view_pseq_push, num_elem, rat_minus_one};
use vstd::pervasive::VecAdditionalExecFns;

verus! {

// ---------------------------------------------------------------------------
// Splicing factors into a product.
// ---------------------------------------------------------------------------

/// A positive lone-product expression can be dissolved into the product
/// that holds it as a factor.
pub open spec fn is_mult_wrapper(e: ElemV) -> bool {
    &&& e.sign is Positive
    &&& e.body matches NoeV::Expression(x) && x.products.len() == 1
}

/// The numerator and denominator parts that one factor adds.
pub open spec fn splice_one(e: ElemV) -> (Seq<ElemV>, Seq<ElemV>)
    decreases e,
{
    if is_mult_wrapper(e) {
        let q = e.body->Expression_0.products[0];
        let nn = splice_factors(q.numerator);
        let dd = splice_factors(q.denominator);
        (nn.0.add(dd.1), nn.1.add(dd.0))
    } else {
        (seq![e], Seq::empty())
    }
}

/// The parts a whole factor list adds, in order.
pub open spec fn splice_factors(s: Seq<ElemV>) -> (Seq<ElemV>, Seq<ElemV>)
    decreases s,
{
    if s.len() == 0 {
        (Seq::empty(), Seq::empty())
    } else {
        let pre = splice_factors(s.drop_last());
        let one = splice_one(s.last());
        (pre.0.add(one.0), pre.1.add(one.1))
    }
}

// ---------------------------------------------------------------------------
// Splicing wrapper products into an expression.
// ---------------------------------------------------------------------------

/// A product that only wraps a lone expression element.
pub open spec fn is_add_wrapper(p: ProdV) -> bool {
    &&& p.denominator.len() == 0
    &&& p.numerator.len() == 1
    &&& p.numerator[0].body is Expression
}

pub open spec fn flip_elem(e: ElemV) -> ElemV {
    ElemV { sign: e.sign.flip_spec(), ..e }
}

/// Invert the sign of a product by flipping its leading element.
pub open spec fn negate_prod(p: ProdV) -> ProdV {
    if p.numerator.len() > 0 {
        ProdV { numerator: p.numerator.update(0, flip_elem(p.numerator[0])), ..p }
    } else if p.denominator.len() > 0 {
        ProdV { denominator: p.denominator.update(0, flip_elem(p.denominator[0])), ..p }
    } else {
        ProdV { numerator: seq![num_elem(rat_minus_one())], denominator: Seq::empty() }
    }
}

pub open spec fn negate_prods(s: Seq<ProdV>) -> Seq<ProdV>
    decreases s,
{
    if s.len() == 0 {
        Seq::empty()
    } else {
        negate_prods(s.drop_last()).push(negate_prod(s.last()))
    }
}

pub proof fn lemma_negate_prods(s: Seq<ProdV>)
    ensures
        negate_prods(s).len() == s.len(),
        forall|i: int| 0 <= i < s.len() ==> negate_prods(s)[i] == negate_prod(s[i]),
    decreases s,
{
    if s.len() > 0 {
        lemma_negate_prods(s.drop_last());
    }
}

/// What one product adds to the surrounding expression.
pub open spec fn splice_product(p: ProdV) -> Seq<ProdV> {
    if is_add_wrapper(p) {
        let inner = p.numerator[0].body->Expression_0.products;
        if p.numerator[0].sign is Positive {
            inner
        } else {
            negate_prods(inner)
        }
    } else {
        seq![p]
    }
}

// ---------------------------------------------------------------------------
// The recursive pass.
// ---------------------------------------------------------------------------

pub open spec fn flat_elem(e: ElemV) -> ElemV
    decreases e,
{
    match e.body {
        NoeV::Node(n) => ElemV { sign: e.sign, body: NoeV::Node(flat_node(n)), cache: None },
        NoeV::Expression(x) => {
            let ps = flat_products(x.products);
            if ps.len() == 1 && ps[0].denominator.len() == 0 && ps[0].numerator.len() == 1 {
                let inner = ps[0].numerator[0];
                ElemV { sign: e.sign.mul_spec(inner.sign), body: inner.body, cache: None }
            } else {
                ElemV { sign: e.sign, body: NoeV::Expression(ExprV { products: ps }), cache: None }
            }
        },
    }
}

pub open spec fn flat_node(n: NodeV) -> NodeV
    decreases n,
{
    match n {
        NodeV::Number(r) => NodeV::Number(r),
        NodeV::Variable(name) => NodeV::Variable(name),
        NodeV::Power { base, power } => NodeV::Power {
            base: Box::new(flat_elem(*base)),
            power: Box::new(flat_elem(*power)),
        },
        NodeV::Modulo { lhs, rhs } => NodeV::Modulo {
            lhs: Box::new(flat_elem(*lhs)),
            rhs: Box::new(flat_elem(*rhs)),
        },
        NodeV::Factorial { child } => NodeV::Factorial { child: Box::new(flat_elem(*child)) },
        NodeV::Function { name, arguments } => NodeV::Function {
            name,
            arguments: flat_eseq(arguments),
        },
    }
}

pub open spec fn flat_eseq(s: Seq<ElemV>) -> Seq<ElemV>
    decreases s,
{
    if s.len() == 0 {
        Seq::empty()
    } else {
        flat_eseq(s.drop_last()).push(flat_elem(s.last()))
    }
}

pub proof fn lemma_flat_eseq(s: Seq<ElemV>)
    ensures
        flat_eseq(s).len() == s.len(),
        forall|i: int| 0 <= i < s.len() ==> flat_eseq(s)[i] == flat_elem(s[i]),
    decreases s,
{
    if s.len() > 0 {
        lemma_flat_eseq(s.drop_last());
    }
}

/// Flatten a product: flatten its factors, then splice what can be spliced.
pub open spec fn flat_prod(p: ProdV) -> ProdV
    decreases p,
{
    let nn = splice_factors(flat_eseq(p.numerator));
    let dd = splice_factors(flat_eseq(p.denominator));
    ProdV { numerator: nn.0.add(dd.1), denominator: nn.1.add(dd.0) }
}

pub open spec fn flat_products(s: Seq<ProdV>) -> Seq<ProdV>
    decreases s,
{
    if s.len() == 0 {
        Seq::empty()
    } else {
        flat_products(s.drop_last()).add(splice_product(flat_prod(s.last())))
    }
}

// ---------------------------------------------------------------------------
// Executable splicing.
// ---------------------------------------------------------------------------

fn splice_one_exec(e: &Element) -> (r: (Vec<Element>, Vec<Element>))
    ensures
        view_elem_seq(r.0@) == splice_one(e@).0,
        view_elem_seq(r.1@) == splice_one(e@).1,
    decreases *e,
{
    let is_wrapper = match &e.node_or_expression {
        NodeOrExpression::Expression(x) => {
            proof {
                lemma_view_prod_seq(x.products@);
            }
            e.sign == Sign::Positive && x.products.len() == 1
        },
        _ => false,
    };
    proof {
        assert(is_wrapper == is_mult_wrapper(e@));
    }
    if is_wrapper {
        match &e.node_or_expression {
            NodeOrExpression::Expression(x) => {
                proof {
                    lemma_view_prod_seq(x.products@);
                    assert(e@.body->Expression_0.products[0] == view_product(x.products@[0]));
                }
                let q = &x.products[0];
                let (mut n0, mut d0) = splice_factors_exec(&q.numerator);
                let (mut n1, mut d1) = splice_factors_exec(&q.denominator);
                let ghost vn0 = view_elem_seq(n0@);
                let ghost vd0 = view_elem_seq(d0@);
                let ghost vn1 = view_elem_seq(n1@);
                let ghost vd1 = view_elem_seq(d1@);
                proof {
                    lemma_view_elem_seq(n0@);
                    lemma_view_elem_seq(d0@);
                    lemma_view_elem_seq(n1@);
                    lemma_view_elem_seq(d1@);
                }
                n0.append(&mut d1);
                d0.append(&mut n1);
                proof {
                    lemma_view_elem_seq(n0@);
                    lemma_view_elem_seq(d0@);
                    assert(view_elem_seq(n0@) =~= vn0.add(vd1)) by {
                        lemma_view_concat(n0@, vn0, vd1);
                    }
                    assert(view_elem_seq(d0@) =~= vd0.add(vn1)) by {
                        lemma_view_concat(d0@, vd0, vn1);
                    }
                }
                (n0, d0)
            },
            _ => {
                proof {
                    assert(false);
                }
                (Vec::new(), Vec::new())
            },
        }
    } else {
        let mut n: Vec<Element> = Vec::new();
        n.push(e.duplicate());
        proof {
            assert(n@.drop_last() =~= Seq::<Element>::empty());
            lemma_view_eseq_push(n@);
            assert(view_elem_seq(n@) =~= seq![e@]);
            assert(view_elem_seq(Seq::<Element>::empty()) =~= Seq::<ElemV>::empty());
        }
        (n, Vec::new())
    }
}

fn splice_factors_exec(v: &Vec<Element>) -> (r: (Vec<Element>, Vec<Element>))
    ensures
        view_elem_seq(r.0@) == splice_factors(view_elem_seq(v@)).0,
        view_elem_seq(r.1@) == splice_factors(view_elem_seq(v@)).1,
    decreases v@,
{
    let ghost sv = view_elem_seq(v@);
    proof {
        lemma_view_elem_seq(v@);
        assert(sv.subrange(0, 0) =~= Seq::<ElemV>::empty());
    }
    let mut num: Vec<Element> = Vec::new();
    let mut den: Vec<Element> = Vec::new();
    let n = v.len();
    let mut i: usize = 0;
    while i < n
        invariant
            n == v@.len(),
            sv == view_elem_seq(v@),
            sv.len() == n,
            forall|j: int| 0 <= j < n ==> sv[j] == view_element(v@[j]),
            0 <= i <= n,
            view_elem_seq(num@) == splice_factors(sv.subrange(0, i as int)).0,
            view_elem_seq(den@) == splice_factors(sv.subrange(0, i as int)).1,
        decreases n - i,
    {
        proof {
            assert(sv.subrange(0, i as int + 1).drop_last() =~= sv.subrange(0, i as int));
            assert(sv.subrange(0, i as int + 1).last() == sv[i as int]);
        }
        let (mut a, mut b) = splice_one_exec(&v[i]);
        let ghost va = view_elem_seq(a@);
        let ghost vb = view_elem_seq(b@);
        let ghost vnum = view_elem_seq(num@);
        let ghost vden = view_elem_seq(den@);
        proof {
            lemma_view_elem_seq(a@);
            lemma_view_elem_seq(b@);
            lemma_view_elem_seq(num@);
            lemma_view_elem_seq(den@);
        }
        num.append(&mut a);
        den.append(&mut b);
        proof {
            assert(view_elem_seq(num@) =~= vnum.add(va)) by {
                lemma_view_concat(num@, vnum, va);
            }
            assert(view_elem_seq(den@) =~= vden.add(vb)) by {
                lemma_view_concat(den@, vden, vb);
            }
        }
        i += 1;
    }
    proof {
        assert(sv.subrange(0, n as int) =~= sv);
    }
    (num, den)
}

pub fn negate_prod_exec(q: Product) -> (r: Product)
    ensures
        view_product(r) == negate_prod(view_product(q)),
{
    let ghost qv = view_product(q);
    proof {
        lemma_view_elem_seq(q.numerator@);
        lemma_view_elem_seq(q.denominator@);
    }
    if q.numerator.len() > 0 {
        let mut v = q.numerator;
        let ghost vr0 = v@;
        let mut e0 = v[0].duplicate();
        e0.sign = e0.sign.flip();
        proof {
            assert(view_element(e0) =~~= flip_elem(qv.numerator[0]));
        }
        v.set(0, e0);
        let r = Product { numerator: v, denominator: q.denominator };
        proof {
            lemma_view_elem_seq(v@);
            assert(view_elem_seq(v@) =~= qv.numerator.update(0, flip_elem(qv.numerator[0])));
            assert(view_product(r) =~~= negate_prod(qv));
        }
        r
    } else if q.denominator.len() > 0 {
        let mut v = q.denominator;
        let mut e0 = v[0].duplicate();
        e0.sign = e0.sign.flip();
        proof {
            assert(view_element(e0) =~~= flip_elem(qv.denominator[0]));
        }
        v.set(0, e0);
        let r = Product { numerator: q.numerator, denominator: v };
        proof {
            lemma_view_elem_seq(v@);
            assert(view_elem_seq(v@) =~= qv.denominator.update(0, flip_elem(qv.denominator[0])));
            assert(view_product(r) =~~= negate_prod(qv));
        }
        r
    } else {
        let mut v: Vec<Element> = Vec::new();
        v.push(
            Element::new(
                Sign::Positive,
                NodeOrExpression::Node(Node::Number(crate::rational::Rational::from_integer(-1))),
            ),
        );
        let r = Product { numerator: v, denominator: Vec::new() };
        proof {
            assert(r.numerator@.drop_last() =~= Seq::<Element>::empty());
            lemma_view_eseq_push(r.numerator@);
            assert(view_elem_seq(r.numerator@) =~= seq![num_elem(rat_minus_one())]);
            assert(view_elem_seq(r.denominator@) =~= Seq::<ElemV>::empty());
            assert(view_product(r) =~~= negate_prod(qv));
        }
        r
    }
}

fn splice_product_exec(p: Product) -> (r: Vec<Product>)
    ensures
        view_prod_seq(r@) == splice_product(view_product(p)),
{
    let ghost pv = view_product(p);
    proof {
        lemma_view_elem_seq(p.numerator@);
    }
    let is_wrapper = p.denominator.len() == 0 && p.numerator.len() == 1 && match &p.numerator[0]
        .node_or_expression {
        NodeOrExpression::Expression(_) => true,
        _ => false,
    };
    if !is_wrapper {
        let mut out: Vec<Product> = Vec::new();
        out.push(p);
        proof {
            assert(out@.drop_last() =~= Seq::<Product>::empty());
            lemma_view_pseq_push(out@);
            assert(view_prod_seq(out@) =~= seq![pv]);
        }
        return out;
    }
    let mut numerator = p.numerator;
    let first = match numerator.pop() {
        Some(f) => f,
        None => {
            proof {
                assert(false);
            }
            Element::new(Sign::Positive, NodeOrExpression::Expression(Expression {
                products: Vec::new(),
            }))
        },
    };
    proof {
        assert(first == p.numerator@[0]);
        assert(view_element(first) == pv.numerator[0]);
    }
    let sgn = first.sign;
    match first.node_or_expression {
        NodeOrExpression::Expression(x) => {
            let ghost innerv = pv.numerator[0].body->Expression_0.products;
            proof {
                assert(view_prod_seq(x.products@) == innerv);
                lemma_view_prod_seq(x.products@);
            }
            if sgn == Sign::Positive {
                x.products
            } else {
                let inner = x.products;
                let n = inner.len();
                let mut out: Vec<Product> = Vec::new();
                let mut i: usize = 0;
                let mut rest = inner;
                // consume from the front to keep order
                proof {
                    lemma_negate_prods(innerv);
                }
                while i < n
                    invariant
                        n == innerv.len(),
                        rest@.len() == n - i,
                        forall|j: int|
                            0 <= j < n - i ==> view_product(#[trigger] rest@[j]) == innerv.index(
                                j + i,
                            ),
                        0 <= i <= n,
                        out@.len() == i,
                        forall|j: int|
                            0 <= j < i ==> view_product(#[trigger] out@[j]) == negate_prod(
                                innerv[j],
                            ),
                    decreases n - i,
                {
                    let q = rest.remove(0);
                    proof {
                        assert(view_product(q) == innerv[i as int]);
                    }
                    out.push(negate_prod_exec(q));
                    i += 1;
                }
                proof {
                    lemma_view_prod_seq(out@);
                    lemma_negate_prods(innerv);
                    assert(view_prod_seq(out@) =~= negate_prods(innerv));
                }
                out
            }
        },
        _ => {
            proof {
                assert(false);
            }
            Vec::new()
        },
    }
}

// ---------------------------------------------------------------------------
// The executable pass.
// ---------------------------------------------------------------------------

pub fn flat_elem_exec(e: &Element) -> (r: Element)
    ensures
        view_element(r) == flat_elem(e@),
    decreases *e,
{
    match &e.node_or_expression {
        NodeOrExpression::Node(n) => {
            let r = Element {
                sign: e.sign,
                node_or_expression: NodeOrExpression::Node(flat_node_exec(n)),
                cache: None,
            };
            proof {
                assert(view_element(r) =~~= flat_elem(e@));
            }
            r
        },
        NodeOrExpression::Expression(x) => {
            let ps = flat_products_exec(&x.products);
            proof {
                lemma_view_prod_seq(ps@);
            }
            let ghost psv = view_prod_seq(ps@);
            if ps.len() == 1 && ps[0].denominator.len() == 0 && ps[0].numerator.len() == 1 {
                proof {
                    lemma_view_elem_seq(ps@[0].numerator@);
                    assert(psv[0] == view_product(ps@[0]));
                    assert(psv[0].numerator[0] == view_element(ps@[0].numerator@[0]));
                }
                let d = ps[0].numerator[0].duplicate();
                let r = Element {
                    sign: e.sign.mul(d.sign),
                    node_or_expression: d.node_or_expression,
                    cache: None,
                };
                proof {
                    assert(view_element(r) =~~= flat_elem(e@));
                }
                r
            } else {
                let r = Element {
                    sign: e.sign,
                    node_or_expression: NodeOrExpression::Expression(Expression { products: ps }),
                    cache: None,
                };
                proof {
                    assert(view_element(r) =~~= flat_elem(e@));
                }
                r
            }
        },
    }
}

fn flat_node_exec(n: &Node) -> (r: Node)
    ensures
        view_node(r) == flat_node(n@),
    decreases *n,
{
    match n {
        Node::Number(x) => Node::Number(*x),
        Node::Variable(s) => Node::Variable(s.clone()),
        Node::Power { base, power } => Node::Power {
            base: Box::new(flat_elem_exec(base)),
            power: Box::new(flat_elem_exec(power)),
        },
        Node::Modulo { lhs, rhs } => Node::Modulo {
            lhs: Box::new(flat_elem_exec(lhs)),
            rhs: Box::new(flat_elem_exec(rhs)),
        },
        Node::Factorial { child } => Node::Factorial { child: Box::new(flat_elem_exec(child)) },
        Node::Function { name, arguments } => {
            let r = Node::Function { name: name.clone(), arguments: flat_eseq_exec(arguments) };
            proof {
                assert(view_node(r) =~~= flat_node(n@));
            }
            r
        },
    }
}

fn flat_eseq_exec(v: &Vec<Element>) -> (r: Vec<Element>)
    ensures
        view_elem_seq(r@) == flat_eseq(view_elem_seq(v@)),
    decreases v@,
{
    let ghost sv = view_elem_seq(v@);
    proof {
        lemma_view_elem_seq(v@);
    }
    let n = v.len();
    let mut out: Vec<Element> = Vec::new();
    let mut i: usize = 0;
    while i < n
        invariant
            n == v@.len(),
            sv == view_elem_seq(v@),
            sv.len() == n,
            forall|j: int| 0 <= j < n ==> sv[j] == view_element(v@[j]),
            0 <= i <= n,
            out@.len() == i,
            forall|j: int| 0 <= j < i ==> view_element(#[trigger] out@[j]) == flat_elem(sv[j]),
        decreases n - i,
    {
        out.push(flat_elem_exec(&v[i]));
        i += 1;
    }
    proof {
        lemma_view_elem_seq(out@);
        lemma_flat_eseq(sv);
        assert(view_elem_seq(out@) =~= flat_eseq(sv));
    }
    out
}

fn flat_prod_exec(p: &Product) -> (r: Product)
    ensures
        view_product(r) == flat_prod(view_product(*p)),
    decreases *p,
{
    let fn0 = flat_eseq_exec(&p.numerator);
    let fd0 = flat_eseq_exec(&p.denominator);
    let (mut n0, mut d0) = splice_factors_exec(&fn0);
    let (mut n1, mut d1) = splice_factors_exec(&fd0);
    let ghost vn0 = view_elem_seq(n0@);
    let ghost vd0 = view_elem_seq(d0@);
    let ghost vn1 = view_elem_seq(n1@);
    let ghost vd1 = view_elem_seq(d1@);
    proof {
        lemma_view_elem_seq(n0@);
        lemma_view_elem_seq(d0@);
        lemma_view_elem_seq(n1@);
        lemma_view_elem_seq(d1@);
    }
    n0.append(&mut d1);
    d0.append(&mut n1);
    let r = Product { numerator: n0, denominator: d0 };
    proof {
        assert(view_elem_seq(r.numerator@) =~= vn0.add(vd1)) by {
            lemma_view_concat(r.numerator@, vn0, vd1);
        }
        assert(view_elem_seq(r.denominator@) =~= vd0.add(vn1)) by {
            lemma_view_concat(r.denominator@, vd0, vn1);
        }
        assert(view_product(r) =~~= flat_prod(view_product(*p)));
    }
    r
}

fn flat_products_exec(v: &Vec<Product>) -> (r: Vec<Product>)
    ensures
        view_prod_seq(r@) == flat_products(view_prod_seq(v@)),
    decreases v@,
{
    let ghost sv = view_prod_seq(v@);
    proof {
        lemma_view_prod_seq(v@);
        assert(sv.subrange(0, 0) =~= Seq::<ProdV>::empty());
    }
    let n = v.len();
    let mut out: Vec<Product> = Vec::new();
    let mut i: usize = 0;
    while i < n
        invariant
            n == v@.len(),
            sv == view_prod_seq(v@),
            sv.len() == n,
            forall|j: int| 0 <= j < n ==> sv[j] == view_product(v@[j]),
            0 <= i <= n,
            view_prod_seq(out@) == flat_products(sv.subrange(0, i as int)),
        decreases n - i,
    {
        proof {
            assert(sv.subrange(0, i as int + 1).drop_last() =~= sv.subrange(0, i as int));
            assert(sv.subrange(0, i as int + 1).last() == sv[i as int]);
        }
        let p2 = flat_prod_exec(&v[i]);
        let mut piece = splice_product_exec(p2);
        let ghost cv = view_prod_seq(piece@);
        let ghost outv0 = view_prod_seq(out@);
        proof {
            lemma_view_prod_seq(piece@);
            lemma_view_prod_seq(out@);
        }
        out.append(&mut piece);
        proof {
            lemma_view_prod_seq(out@);
            assert(view_prod_seq(out@) =~= outv0.add(cv));
        }
        i += 1;
    }
    proof {
        assert(sv.subrange(0, n as int) =~= sv);
    }
    out
}

} // verus!
