//! Tree nodes.
//!
//! An `Element` is a signed node holding either a structural `Node` or an
//! `Expression`; an `Expression` is an ordered sum of `Product`s; a `Product`
//! is a pair of factor lists, numerator and denominator. Every element
//! optionally carries an analysis cache (the variables and function names
//! occurring beneath it, and whether it is purely numeric), which is `None`
//! until an analysis pass fills it.
//!
//! Each executable type has a mathematical model (`ElemV`, `NodeV`, ...)
//! built from `Seq` and `Set`; the view functions translate. All contracts
//! in this crate speak about the models.

use vstd::prelude::*;

use crate::rational::Rational;

verus! {

/// The sign carried by every element; a group of two under multiplication.
#[derive(Debug, Clone, Copy, PartialEq, Eq, Structural)]
pub enum Sign {
    Positive,
    Negative,
}

impl Sign {
    /// `Positive` is the neutral element; two equal signs multiply to `Positive`.
    pub open spec fn mul_spec(self, rhs: Sign) -> Sign {
        if self == rhs {
            Sign::Positive
        } else {
            Sign::Negative
        }
    }

    pub open spec fn flip_spec(self) -> Sign {
        if self == Sign::Positive {
            Sign::Negative
        } else {
            Sign::Positive
        }
    }

    /// The group operation.
    pub fn mul(self, rhs: Sign) -> (r: Sign)
        ensures
            r == self.mul_spec(rhs),
    {
        if self == rhs {
            Sign::Positive
        } else {
            Sign::Negative
        }
    }

    pub fn flip(self) -> (r: Sign)
        ensures
            r == self.flip_spec(),
    {
        match self {
            Sign::Positive => Sign::Negative,
            Sign::Negative => Sign::Positive,
        }
    }
}

/// Sign multiplication is commutative and associative, `Positive` is its
/// identity, every sign is its own inverse, and flipping twice is identity.
pub proof fn sign_group_laws(a: Sign, b: Sign, c: Sign)
    ensures
        Sign::Positive.mul_spec(Sign::Positive) == Sign::Positive,
        Sign::Positive.mul_spec(Sign::Negative) == Sign::Negative,
        Sign::Negative.mul_spec(Sign::Positive) == Sign::Negative,
        Sign::Negative.mul_spec(Sign::Negative) == Sign::Positive,
        a.mul_spec(b) == b.mul_spec(a),
        a.mul_spec(b).mul_spec(c) == a.mul_spec(b.mul_spec(c)),
        Sign::Positive.mul_spec(a) == a,
        a.mul_spec(a) == Sign::Positive,
        a.flip_spec().flip_spec() == a,
{
}

/// What an analysis pass records about one element.
#[derive(Debug)]
pub struct ElementCache {
    pub variables: Vec<String>,
    pub functions: Vec<String>,
    pub is_number: Option<bool>,
}

/// Model of a cache: the recorded names as sets, plus the name lists'
/// lengths so that "exactly one distinct variable" can be read off.
#[verifier::ext_equal]
pub struct CacheV {
    pub variables: Set<Seq<char>>,
    pub functions: Set<Seq<char>>,
    pub n_variables: nat,
    pub n_functions: nat,
    pub is_number: Option<bool>,
}

impl ElementCache {
    /// A fresh, empty cache with the numeric status still unknown.
    pub fn new() -> (r: ElementCache)
        ensures
            r@.variables == Set::<Seq<char>>::empty(),
            r@.functions == Set::<Seq<char>>::empty(),
            r@.n_variables == 0,
            r@.n_functions == 0,
            r@.is_number is None,
    {
        ElementCache { variables: Vec::new(), functions: Vec::new(), is_number: None }
    }
}

pub open spec fn names_set(v: Seq<String>) -> Set<Seq<char>> {
    Set::new(|s: Seq<char>| exists|i: int| 0 <= i < v.len() && v[i]@ == s)
}

impl View for ElementCache {
    type V = CacheV;

    open spec fn view(&self) -> CacheV {
        CacheV {
            variables: names_set(self.variables@),
            functions: names_set(self.functions@),
            n_variables: self.variables@.len(),
            n_functions: self.functions@.len(),
            is_number: self.is_number,
        }
    }
}

/// A signed tree node: the universal building block.
#[derive(Debug)]
pub struct Element {
    pub sign: Sign,
    pub node_or_expression: NodeOrExpression,
    pub cache: Option<ElementCache>,
}

/// The tagged union inside an element.
#[derive(Debug)]
pub enum NodeOrExpression {
    Node(Node),
    Expression(Expression),
}

/// Leaf and structural variants.
#[derive(Debug)]
pub enum Node {
    Number(Rational),
    Variable(String),
    Power { base: Box<Element>, power: Box<Element> },
    Modulo { lhs: Box<Element>, rhs: Box<Element> },
    Factorial { child: Box<Element> },
    Function { name: String, arguments: Vec<Element> },
}

/// An ordered sum of products.
#[derive(Debug)]
pub struct Expression {
    pub products: Vec<Product>,
}

/// `Π numerator / Π denominator`; an empty list denotes the identity 1.
#[derive(Debug)]
pub struct Product {
    pub numerator: Vec<Element>,
    pub denominator: Vec<Element>,
}

// ---------------------------------------------------------------------------
// The mathematical model.
// ---------------------------------------------------------------------------

#[verifier::ext_equal]
pub struct ElemV {
    pub sign: Sign,
    pub body: NoeV,
    pub cache: Option<CacheV>,
}

#[verifier::ext_equal]
pub enum NoeV {
    Node(NodeV),
    Expression(ExprV),
}

#[verifier::ext_equal]
pub enum NodeV {
    Number(Rational),
    Variable(Seq<char>),
    Power { base: Box<ElemV>, power: Box<ElemV> },
    Modulo { lhs: Box<ElemV>, rhs: Box<ElemV> },
    Factorial { child: Box<ElemV> },
    Function { name: Seq<char>, arguments: Seq<ElemV> },
}

#[verifier::ext_equal]
pub struct ExprV {
    pub products: Seq<ProdV>,
}

#[verifier::ext_equal]
pub struct ProdV {
    pub numerator: Seq<ElemV>,
    pub denominator: Seq<ElemV>,
}

pub open spec fn view_element(e: Element) -> ElemV
    decreases e,
{
    ElemV {
        sign: e.sign,
        body: view_noe(e.node_or_expression),
        cache: match e.cache {
            Some(c) => Some(c@),
            None => None,
        },
    }
}

pub open spec fn view_noe(n: NodeOrExpression) -> NoeV
    decreases n,
{
    match n {
        NodeOrExpression::Node(node) => NoeV::Node(view_node(node)),
        NodeOrExpression::Expression(e) => NoeV::Expression(view_expression(e)),
    }
}

pub open spec fn view_node(n: Node) -> NodeV
    decreases n,
{
    match n {
        Node::Number(r) => NodeV::Number(r),
        Node::Variable(name) => NodeV::Variable(name@),
        Node::Power { base, power } => NodeV::Power {
            base: Box::new(view_element(*base)),
            power: Box::new(view_element(*power)),
        },
        Node::Modulo { lhs, rhs } => NodeV::Modulo {
            lhs: Box::new(view_element(*lhs)),
            rhs: Box::new(view_element(*rhs)),
        },
        Node::Factorial { child } => NodeV::Factorial { child: Box::new(view_element(*child)) },
        Node::Function { name, arguments } => NodeV::Function {
            name: name@,
            arguments: view_elem_seq(arguments@),
        },
    }
}

pub open spec fn view_elem_seq(s: Seq<Element>) -> Seq<ElemV>
    decreases s,
{
    if s.len() == 0 {
        Seq::empty()
    } else {
        view_elem_seq(s.drop_last()).push(view_element(s.last()))
    }
}

/// The view of a sequence of elements is the sequence of their views.
pub proof fn lemma_view_elem_seq(s: Seq<Element>)
    ensures
        view_elem_seq(s).len() == s.len(),
        forall|i: int| 0 <= i < s.len() ==> view_elem_seq(s)[i] == view_element(s[i]),
    decreases s,
{
    if s.len() > 0 {
        lemma_view_elem_seq(s.drop_last());
    }
}

pub open spec fn view_expression(e: Expression) -> ExprV
    decreases e,
{
    ExprV { products: view_prod_seq(e.products@) }
}

pub open spec fn view_prod_seq(s: Seq<Product>) -> Seq<ProdV>
    decreases s,
{
    if s.len() == 0 {
        Seq::empty()
    } else {
        view_prod_seq(s.drop_last()).push(view_product(s.last()))
    }
}

/// The view of a sequence of products is the sequence of their views.
pub proof fn lemma_view_prod_seq(s: Seq<Product>)
    ensures
        view_prod_seq(s).len() == s.len(),
        forall|i: int| 0 <= i < s.len() ==> view_prod_seq(s)[i] == view_product(s[i]),
    decreases s,
{
    if s.len() > 0 {
        lemma_view_prod_seq(s.drop_last());
    }
}

pub open spec fn view_product(p: Product) -> ProdV
    decreases p,
{
    ProdV { numerator: view_elem_seq(p.numerator@), denominator: view_elem_seq(p.denominator@) }
}

impl View for Element {
    type V = ElemV;

    open spec fn view(&self) -> ElemV {
        view_element(*self)
    }
}

impl View for NodeOrExpression {
    type V = NoeV;

    open spec fn view(&self) -> NoeV {
        view_noe(*self)
    }
}

impl View for Node {
    type V = NodeV;

    open spec fn view(&self) -> NodeV {
        view_node(*self)
    }
}

impl View for Expression {
    type V = ExprV;

    open spec fn view(&self) -> ExprV {
        view_expression(*self)
    }
}

impl View for Product {
    type V = ProdV;

    open spec fn view(&self) -> ProdV {
        view_product(*self)
    }
}

// ---------------------------------------------------------------------------
// Structural sameness: exact equality of shape, signs and names, with
// rational constants compared by value and caches ignored.
// ---------------------------------------------------------------------------

pub open spec fn same_elem(a: ElemV, b: ElemV) -> bool
    decreases a,
{
    a.sign == b.sign && same_noe(a.body, b.body)
}

pub open spec fn same_noe(a: NoeV, b: NoeV) -> bool
    decreases a,
{
    match a {
        NoeV::Node(x) => match b {
            NoeV::Node(y) => same_node(x, y),
            NoeV::Expression(_) => false,
        },
        NoeV::Expression(x) => match b {
            NoeV::Node(_) => false,
            NoeV::Expression(y) => same_expr(x, y),
        },
    }
}

pub open spec fn same_node(a: NodeV, b: NodeV) -> bool
    decreases a,
{
    match a {
        NodeV::Number(x) => b matches NodeV::Number(y) && x.eq_spec(y),
        NodeV::Variable(x) => b matches NodeV::Variable(y) && x == y,
        NodeV::Power { base, power } => {
            &&& b matches NodeV::Power { base: b2, power: p2 }
            &&& same_elem(*base, *b2)
            &&& same_elem(*power, *p2)
        },
        NodeV::Modulo { lhs, rhs } => {
            &&& b matches NodeV::Modulo { lhs: l2, rhs: r2 }
            &&& same_elem(*lhs, *l2)
            &&& same_elem(*rhs, *r2)
        },
        NodeV::Factorial { child } => {
            &&& b matches NodeV::Factorial { child: c2 }
            &&& same_elem(*child, *c2)
        },
        NodeV::Function { name, arguments } => {
            &&& b matches NodeV::Function { name: n2, arguments: a2 }
            &&& name == n2
            &&& same_eseq(arguments, a2)
        },
    }
}

pub open spec fn same_eseq(a: Seq<ElemV>, b: Seq<ElemV>) -> bool
    decreases a,
{
    a.len() == b.len() && forall|i: int| 0 <= i < a.len() ==> same_elem(#[trigger] a[i], b[i])
}

pub open spec fn same_expr(a: ExprV, b: ExprV) -> bool
    decreases a,
{
    same_pseq(a.products, b.products)
}

pub open spec fn same_pseq(a: Seq<ProdV>, b: Seq<ProdV>) -> bool
    decreases a,
{
    a.len() == b.len() && forall|i: int| 0 <= i < a.len() ==> same_prod(#[trigger] a[i], b[i])
}

pub open spec fn same_prod(a: ProdV, b: ProdV) -> bool
    decreases a,
{
    same_eseq(a.numerator, b.numerator) && same_eseq(a.denominator, b.denominator)
}

// ---------------------------------------------------------------------------
// Deep equality and deep copy.
// ---------------------------------------------------------------------------

impl Element {
    /// Structural sameness test: shape, signs and names equal, numbers equal
    /// by value, caches ignored.
    pub fn eq_tree(&self, other: &Element) -> (r: bool)
        ensures
            r == same_elem(self@, other@),
        decreases *self,
    {
        if !matches!((self.sign, other.sign), (Sign::Positive, Sign::Positive) | (Sign::Negative, Sign::Negative)) {
            return false;
        }
        match (&self.node_or_expression, &other.node_or_expression) {
            (NodeOrExpression::Node(x), NodeOrExpression::Node(y)) => eq_tree_node(x, y),
            (NodeOrExpression::Expression(x), NodeOrExpression::Expression(y)) => eq_tree_pseq(
                &x.products,
                &y.products,
            ),
            _ => false,
        }
    }
}

pub(crate) fn eq_tree_node(a: &Node, b: &Node) -> (r: bool)
    ensures
        r == same_node(a@, b@),
    decreases *a,
{
    match (a, b) {
        (Node::Number(x), Node::Number(y)) => x.eq_value(y),
        (Node::Variable(x), Node::Variable(y)) => *x == *y,
        (Node::Power { base: b1, power: p1 }, Node::Power { base: b2, power: p2 }) => b1.eq_tree(
            b2,
        ) && p1.eq_tree(p2),
        (Node::Modulo { lhs: l1, rhs: r1 }, Node::Modulo { lhs: l2, rhs: r2 }) => l1.eq_tree(l2)
            && r1.eq_tree(r2),
        (Node::Factorial { child: c1 }, Node::Factorial { child: c2 }) => c1.eq_tree(c2),
        (
            Node::Function { name: n1, arguments: a1 },
            Node::Function { name: n2, arguments: a2 },
        ) => *n1 == *n2 && eq_tree_eseq(a1, a2),
        _ => false,
    }
}

pub(crate) fn eq_tree_eseq(a: &Vec<Element>, b: &Vec<Element>) -> (r: bool)
    ensures
        r == same_eseq(view_elem_seq(a@), view_elem_seq(b@)),
    decreases a@,
{
    proof {
        lemma_view_elem_seq(a@);
        lemma_view_elem_seq(b@);
    }
    if a.len() != b.len() {
        return false;
    }
    let n = a.len();
    let mut i: usize = 0;
    while i < n
        invariant
            n == a@.len() == b@.len(),
            0 <= i <= n,
            forall|j: int|
                0 <= j < i ==> same_elem(
                    #[trigger] view_elem_seq(a@)[j],
                    view_elem_seq(b@)[j],
                ),
        decreases n - i,
    {
        proof {
            lemma_view_elem_seq(a@);
            lemma_view_elem_seq(b@);
            assert(view_elem_seq(a@)[i as int] == view_element(a@[i as int]));
            assert(view_elem_seq(b@)[i as int] == view_element(b@[i as int]));
        }
        if !a[i].eq_tree(&b[i]) {
            return false;
        }
        i += 1;
    }
    true
}

pub(crate) fn eq_tree_pseq(a: &Vec<Product>, b: &Vec<Product>) -> (r: bool)
    ensures
        r == same_pseq(view_prod_seq(a@), view_prod_seq(b@)),
    decreases a@,
{
    proof {
        lemma_view_prod_seq(a@);
        lemma_view_prod_seq(b@);
    }
    if a.len() != b.len() {
        return false;
    }
    let n = a.len();
    let mut i: usize = 0;
    while i < n
        invariant
            n == a@.len() == b@.len(),
            0 <= i <= n,
            forall|j: int|
                0 <= j < i ==> same_prod(
                    #[trigger] view_prod_seq(a@)[j],
                    view_prod_seq(b@)[j],
                ),
        decreases n - i,
    {
        proof {
            lemma_view_prod_seq(a@);
            lemma_view_prod_seq(b@);
            assert(view_prod_seq(a@)[i as int] == view_product(a@[i as int]));
            assert(view_prod_seq(b@)[i as int] == view_product(b@[i as int]));
        }
        let pa = &a[i];
        let pb = &b[i];
        if !(eq_tree_eseq(&pa.numerator, &pb.numerator) && eq_tree_eseq(
            &pa.denominator,
            &pb.denominator,
        )) {
            return false;
        }
        i += 1;
    }
    true
}

// ---------------------------------------------------------------------------
// Constructors.
// ---------------------------------------------------------------------------

/// A product holding a single numerator factor and no denominator.
pub open spec fn wrap_product(e: ElemV) -> ProdV {
    ProdV { numerator: seq![e], denominator: Seq::empty() }
}

/// The element with its sign flipped and everything else unchanged.
pub open spec fn flipped(e: ElemV) -> ElemV {
    ElemV { sign: e.sign.flip_spec(), ..e }
}

/// A positive expression element over the given products, not yet analyzed.
pub open spec fn expr_element(products: Seq<ProdV>) -> ElemV {
    ElemV {
        sign: Sign::Positive,
        body: NoeV::Expression(ExprV { products }),
        cache: None,
    }
}

impl Element {
    pub fn new(sign: Sign, node_or_expression: NodeOrExpression) -> (r: Element)
        ensures
            r@ == (ElemV { sign, body: node_or_expression@, cache: None }),
    {
        Element { sign, node_or_expression, cache: None }
    }

    /// Flip the sign in place; the body and the cache stay untouched.
    pub fn invert_sign(&mut self)
        ensures
            final(self)@ == flipped(old(self)@),
    {
        match self.sign {
            Sign::Positive => self.sign = Sign::Negative,
            Sign::Negative => self.sign = Sign::Positive,
        }
    }

    /// `lhs + rhs` as a two-product expression.
    pub fn simple_add(lhs: Element, rhs: Element) -> (r: Element)
        ensures
            r@ == expr_element(seq![wrap_product(lhs@), wrap_product(rhs@)]),
    {
        let ghost lv = lhs@;
        let ghost rv = rhs@;
        let mut n0: Vec<Element> = Vec::new();
        n0.push(lhs);
        let mut n1: Vec<Element> = Vec::new();
        n1.push(rhs);
        let p0 = Product { numerator: n0, denominator: Vec::new() };
        let p1 = Product { numerator: n1, denominator: Vec::new() };
        proof {
            lemma_view_elem_seq(p0.numerator@);
            lemma_view_elem_seq(p1.numerator@);
            assert(view_product(p0) =~~= wrap_product(lv));
            assert(view_product(p1) =~~= wrap_product(rv));
        }
        let ghost pv0 = view_product(p0);
        let ghost pv1 = view_product(p1);
        let mut products: Vec<Product> = Vec::new();
        products.push(p0);
        products.push(p1);
        let ghost ps = products@;
        proof {
            lemma_view_prod_seq(ps);
            assert(view_prod_seq(ps).len() == 2);
            assert(view_prod_seq(ps)[0] == pv0);
            assert(view_prod_seq(ps)[1] == pv1);
            assert(view_prod_seq(ps) =~= seq![pv0, pv1]);
        }
        let e = Element {
            sign: Sign::Positive,
            node_or_expression: NodeOrExpression::Expression(Expression { products }),
            cache: None,
        };
        proof {
            assert(e.node_or_expression matches NodeOrExpression::Expression(x) && x.products@
                == ps);
            assert(e@ =~~= expr_element(seq![pv0, pv1]));
        }
        e
    }

    /// `lhs - rhs`: the sum of `lhs` and sign-flipped `rhs`.
    pub fn simple_sub(lhs: Element, rhs: Element) -> (r: Element)
        ensures
            r@ == expr_element(seq![wrap_product(lhs@), wrap_product(flipped(rhs@))]),
    {
        let mut rhs = rhs;
        rhs.invert_sign();
        Element::simple_add(lhs, rhs)
    }

    /// `lhs * rhs` as a single product with two numerator factors.
    pub fn simple_mul(lhs: Element, rhs: Element) -> (r: Element)
        ensures
            r@ == expr_element(
                seq![(ProdV { numerator: seq![lhs@, rhs@], denominator: Seq::empty() })],
            ),
    {
        let ghost lv = lhs@;
        let ghost rv = rhs@;
        let mut n0: Vec<Element> = Vec::new();
        n0.push(lhs);
        n0.push(rhs);
        let p0 = Product { numerator: n0, denominator: Vec::new() };
        proof {
            lemma_view_elem_seq(p0.numerator@);
            lemma_view_elem_seq(p0.denominator@);
            assert(p0.numerator@.len() == 2);
            assert(view_elem_seq(p0.numerator@).len() == 2);
            assert(view_elem_seq(p0.numerator@)[0] == lv);
            assert(view_elem_seq(p0.numerator@)[1] == rv);
            assert(view_elem_seq(p0.numerator@) =~= seq![lv, rv]);
            assert(view_elem_seq(p0.denominator@) =~= Seq::<ElemV>::empty());
            assert(view_product(p0) =~~= (ProdV {
                numerator: seq![lv, rv],
                denominator: Seq::empty(),
            }));
        }
        let ghost pv0 = view_product(p0);
        let mut products: Vec<Product> = Vec::new();
        products.push(p0);
        let ghost ps = products@;
        proof {
            lemma_view_prod_seq(ps);
            assert(view_prod_seq(ps).len() == 1);
            assert(view_prod_seq(ps)[0] == pv0);
            assert(view_prod_seq(ps) =~= seq![pv0]);
        }
        let e = Element {
            sign: Sign::Positive,
            node_or_expression: NodeOrExpression::Expression(Expression { products }),
            cache: None,
        };
        proof {
            assert(e.node_or_expression matches NodeOrExpression::Expression(x) && x.products@
                == ps);
            assert(e@ =~~= expr_element(seq![pv0]));
        }
        e
    }

    /// `lhs / rhs` as a single product with one factor on each side.
    pub fn simple_div(lhs: Element, rhs: Element) -> (r: Element)
        ensures
            r@ == expr_element(
                seq![(ProdV { numerator: seq![lhs@], denominator: seq![rhs@] })],
            ),
    {
        let ghost lv = lhs@;
        let ghost rv = rhs@;
        let mut n0: Vec<Element> = Vec::new();
        n0.push(lhs);
        let mut d0: Vec<Element> = Vec::new();
        d0.push(rhs);
        let p0 = Product { numerator: n0, denominator: d0 };
        proof {
            lemma_view_elem_seq(p0.numerator@);
            lemma_view_elem_seq(p0.denominator@);
            assert(view_product(p0) =~~= (ProdV { numerator: seq![lv], denominator: seq![rv] }));
        }
        let ghost pv0 = view_product(p0);
        let mut products: Vec<Product> = Vec::new();
        products.push(p0);
        let ghost ps = products@;
        proof {
            lemma_view_prod_seq(ps);
            assert(view_prod_seq(ps).len() == 1);
            assert(view_prod_seq(ps)[0] == pv0);
            assert(view_prod_seq(ps) =~= seq![pv0]);
        }
        let e = Element {
            sign: Sign::Positive,
            node_or_expression: NodeOrExpression::Expression(Expression { products }),
            cache: None,
        };
        proof {
            assert(e.node_or_expression matches NodeOrExpression::Expression(x) && x.products@
                == ps);
            assert(e@ =~~= expr_element(seq![pv0]));
        }
        e
    }

    /// `-self`: the same element with its sign flipped.
    pub fn simple_neg(self) -> (r: Element)
        ensures
            r@ == flipped(self@),
    {
        let mut this = self;
        this.invert_sign();
        this
    }

    /// Multiply the element's own sign by `sign`.
    pub fn simple_mul_sign(self, sign: Sign) -> (r: Element)
        ensures
            r@ == (ElemV { sign: self@.sign.mul_spec(sign), ..self@ }),
    {
        let new_sign = self.sign.mul(sign);
        let mut this = self;
        this.sign = new_sign;
        this
    }
}

impl Expression {
    pub fn new(products: Vec<Product>) -> (r: Expression)
        ensures
            r@.products == view_prod_seq(products@),
    {
        Expression { products }
    }
}

impl Product {
    pub fn new(numerator: Vec<Element>, denominator: Vec<Element>) -> (r: Product)
        ensures
            r@.numerator == view_elem_seq(numerator@),
            r@.denominator == view_elem_seq(denominator@),
    {
        Product { numerator, denominator }
    }
}

// ---------------------------------------------------------------------------
// Deep copy. Trees own their children outright, so rewriting works on
// explicit copies; the copy has exactly the same model as the original.
// ---------------------------------------------------------------------------

pub(crate) fn dup_string_vec(v: &Vec<String>) -> (r: Vec<String>)
    ensures
        r@ == v@,
{
    let mut r: Vec<String> = Vec::new();
    let n = v.len();
    let mut i: usize = 0;
    while i < n
        invariant
            n == v@.len(),
            0 <= i <= n,
            r@ =~= v@.subrange(0, i as int),
        decreases n - i,
    {
        r.push(v[i].clone());
        i += 1;
    }
    proof {
        assert(r@ =~= v@);
    }
    r
}

impl ElementCache {
    pub fn duplicate(&self) -> (r: ElementCache)
        ensures
            r@ == self@,
    {
        let r = ElementCache {
            variables: dup_string_vec(&self.variables),
            functions: dup_string_vec(&self.functions),
            is_number: self.is_number,
        };
        r
    }
}

impl Element {
    /// An exact copy: same model, cache included.
    pub fn duplicate(&self) -> (r: Element)
        ensures
            r@ == self@,
        decreases *self,
    {
        let body = match &self.node_or_expression {
            NodeOrExpression::Node(n) => NodeOrExpression::Node(dup_node(n)),
            NodeOrExpression::Expression(x) => NodeOrExpression::Expression(
                Expression { products: dup_pseq(&x.products) },
            ),
        };
        let cache = match &self.cache {
            Some(c) => Some(c.duplicate()),
            None => None,
        };
        let r = Element { sign: self.sign, node_or_expression: body, cache };
        proof {
            assert(r@ =~~= self@);
        }
        r
    }
}

pub(crate) fn dup_node(n: &Node) -> (r: Node)
    ensures
        r@ == n@,
    decreases *n,
{
    match n {
        Node::Number(x) => Node::Number(*x),
        Node::Variable(s) => Node::Variable(s.clone()),
        Node::Power { base, power } => Node::Power {
            base: Box::new(base.duplicate()),
            power: Box::new(power.duplicate()),
        },
        Node::Modulo { lhs, rhs } => Node::Modulo {
            lhs: Box::new(lhs.duplicate()),
            rhs: Box::new(rhs.duplicate()),
        },
        Node::Factorial { child } => Node::Factorial { child: Box::new(child.duplicate()) },
        Node::Function { name, arguments } => {
            let r = Node::Function { name: name.clone(), arguments: dup_eseq(arguments) };
            proof {
                assert(r@ =~~= n@);
            }
            r
        },
    }
}

pub(crate) fn dup_eseq(v: &Vec<Element>) -> (r: Vec<Element>)
    ensures
        view_elem_seq(r@) == view_elem_seq(v@),
    decreases v@,
{
    let mut r: Vec<Element> = Vec::new();
    let n = v.len();
    let mut i: usize = 0;
    while i < n
        invariant
            n == v@.len(),
            0 <= i <= n,
            r@.len() == i,
            forall|j: int| 0 <= j < i ==> view_element(#[trigger] r@[j]) == view_element(v@[j]),
        decreases n - i,
    {
        r.push(v[i].duplicate());
        i += 1;
    }
    proof {
        lemma_view_elem_seq(r@);
        lemma_view_elem_seq(v@);
        assert(view_elem_seq(r@) =~= view_elem_seq(v@));
    }
    r
}

pub(crate) fn dup_prod(p: &Product) -> (r: Product)
    ensures
        view_product(r) == view_product(*p),
    decreases *p,
{
    let r = Product { numerator: dup_eseq(&p.numerator), denominator: dup_eseq(&p.denominator) };
    proof {
        assert(view_product(r) =~~= view_product(*p));
    }
    r
}

pub(crate) fn dup_pseq(v: &Vec<Product>) -> (r: Vec<Product>)
    ensures
        view_prod_seq(r@) == view_prod_seq(v@),
    decreases v@,
{
    let mut r: Vec<Product> = Vec::new();
    let n = v.len();
    let mut i: usize = 0;
    while i < n
        invariant
            n == v@.len(),
            0 <= i <= n,
            r@.len() == i,
            forall|j: int| 0 <= j < i ==> view_product(#[trigger] r@[j]) == view_product(v@[j]),
        decreases n - i,
    {
        r.push(dup_prod(&v[i]));
        i += 1;
    }
    proof {
        lemma_view_prod_seq(r@);
        lemma_view_prod_seq(v@);
        assert(view_prod_seq(r@) =~= view_prod_seq(v@));
    }
    r
}

} // verus!
