//! The `simplify` rewrite pass.
//!
//! Working bottom-up, every expression node is canonicalized:
//!
//! 1. each product is *rationalized*: its numeric factors and factor signs
//!    are folded into one exact rational coefficient, the remaining factors
//!    made positive (a product whose denominator is numerically zero, or
//!    whose coefficient cannot be represented, is left untouched);
//! 2. identities are removed: a denominator that is exactly `1` is cleared,
//!    a product that is exactly `0` is dropped, and factors equal to `1`
//!    are dropped from any factor list with at least two entries;
//! 3. like products are *combined*: rationalized products with the same
//!    factor lists are merged by adding their coefficients, in first
//!    occurrence order; a group whose coefficient sum is zero disappears.
//!    If any coefficient sum is unrepresentable, the expression keeps its
//!    products separate and only steps 1 and 2 apply.
//!
//! At the top of an equation side, an expression left with no products
//! collapses to the number `0`.
//!
//! Every function here has a specification-level mirror; the executable
//! code is proved to return exactly the mirror's result.

use vstd::prelude::*;

use crate::ast::element::{
    dup_eseq, dup_prod, eq_tree_eseq, lemma_view_elem_seq, lemma_view_prod_seq, same_eseq, view_elem_seq, view_element, view_node, view_prod_seq, view_product, ElemV, Element,
    Expression, ExprV, Node, NodeOrExpression, NodeV, NoeV, ProdV, Product, Sign,
};
use crate::rational::Rational;

verus! {

// ---------------------------------------------------------------------------
// Rationalization of one product, on the model.
// ---------------------------------------------------------------------------

/// The outcome of rationalizing one product: either an exact coefficient
/// with positive factor lists, or the untouched product when the arithmetic
/// cannot be carried out.
#[verifier::ext_equal]
pub enum RatItemV {
    Ratio { c: Rational, num: Seq<ElemV>, den: Seq<ElemV> },
    Fallback(ProdV),
}

pub open spec fn rat_one() -> Rational {
    Rational { num: 1, den: 1 }
}

pub open spec fn rat_zero() -> Rational {
    Rational { num: 0, den: 1 }
}

pub open spec fn rat_minus_one() -> Rational {
    Rational { num: (-1) as i64, den: 1 }
}

/// A positive copy of an element.
pub open spec fn pos_of(e: ElemV) -> ElemV {
    ElemV { sign: Sign::Positive, ..e }
}

/// The element holding a bare number.
pub open spec fn num_elem(c: Rational) -> ElemV {
    ElemV { sign: Sign::Positive, body: NoeV::Node(NodeV::Number(c)), cache: None }
}

/// Fold one factor into the running coefficient and factor list.
pub open spec fn rat_step(c: Rational, fs: Seq<ElemV>, e: ElemV) -> Option<(Rational, Seq<ElemV>)> {
    match e.body {
        NoeV::Node(NodeV::Number(r)) => {
            let signed = if e.sign is Negative {
                Rational::neg_spec(r)
            } else {
                Some(r)
            };
            match signed {
                None => None,
                Some(sr) => match Rational::mul_spec(c, sr) {
                    None => None,
                    Some(c2) => Some((c2, fs)),
                },
            }
        },
        _ => {
            if e.sign is Negative {
                match Rational::mul_spec(c, rat_minus_one()) {
                    None => None,
                    Some(c2) => Some((c2, fs.push(pos_of(e)))),
                }
            } else {
                Some((c, fs.push(pos_of(e))))
            }
        },
    }
}

/// Fold the first `k` factors of a side.
pub open spec fn rat_side_upto(s: Seq<ElemV>, k: int) -> Option<(Rational, Seq<ElemV>)>
    decreases k,
{
    if k <= 0 {
        Some((rat_one(), Seq::empty()))
    } else {
        match rat_side_upto(s, k - 1) {
            None => None,
            Some((c, fs)) => rat_step(c, fs, s[k - 1]),
        }
    }
}

pub open spec fn rat_side(s: Seq<ElemV>) -> Option<(Rational, Seq<ElemV>)> {
    rat_side_upto(s, s.len() as int)
}

/// Rationalize one product.
pub open spec fn rat_prod(p: ProdV) -> RatItemV {
    match rat_side(p.numerator) {
        None => RatItemV::Fallback(p),
        Some((cn, nf)) => match rat_side(p.denominator) {
            None => RatItemV::Fallback(p),
            Some((cd, df)) => {
                if cd.is_zero_spec() {
                    RatItemV::Fallback(p)
                } else {
                    match Rational::invert_spec(cd) {
                        None => RatItemV::Fallback(p),
                        Some(ci) => match Rational::mul_spec(cn, ci) {
                            None => RatItemV::Fallback(p),
                            Some(c) => RatItemV::Ratio { c, num: nf, den: df },
                        },
                    }
                }
            },
        },
    }
}

pub open spec fn items_of(qs: Seq<ProdV>) -> Seq<RatItemV> {
    Seq::new(qs.len(), |i: int| rat_prod(qs[i]))
}

// ---------------------------------------------------------------------------
// Combining like products.
// ---------------------------------------------------------------------------

/// Two rationalized products with the same factor lists belong together.
pub open spec fn same_key(a: RatItemV, b: RatItemV) -> bool {
    &&& a is Ratio
    &&& b is Ratio
    &&& same_eseq(a->num, b->num)
    &&& same_eseq(a->den, b->den)
}

/// The first occurrence of its key among the rationalized products.
pub open spec fn is_first(items: Seq<RatItemV>, i: int) -> bool {
    items[i] is Ratio && forall|j: int| 0 <= j < i ==> !same_key(#[trigger] items[j], items[i])
}

/// The coefficient sum of key-mates of `items[i]` among indices below `k`.
pub open spec fn sum_upto(items: Seq<RatItemV>, i: int, k: int) -> Option<Rational>
    decreases k,
{
    if k <= 0 {
        Some(rat_zero())
    } else {
        match sum_upto(items, i, k - 1) {
            None => None,
            Some(acc) => {
                if 0 <= k - 1 < items.len() && same_key(items[k - 1], items[i]) {
                    Rational::add_spec(acc, items[k - 1]->c)
                } else {
                    Some(acc)
                }
            },
        }
    }
}

pub open spec fn group_sum(items: Seq<RatItemV>, i: int) -> Option<Rational> {
    sum_upto(items, i, items.len() as int)
}

/// Every group's coefficient sum is representable.
pub open spec fn all_ok(items: Seq<RatItemV>) -> bool {
    forall|i: int|
        0 <= i < items.len() && is_first(items, i) ==> (#[trigger] group_sum(items, i)) is Some
}

// ---------------------------------------------------------------------------
// Identity removal on an untouched product.
// ---------------------------------------------------------------------------

/// A bare numeric zero.
pub open spec fn is_zero_num_elem(e: ElemV) -> bool {
    e.body matches NoeV::Node(NodeV::Number(r)) && r.is_zero_spec()
}

/// A positive bare numeric one.
pub open spec fn is_pos_one_elem(e: ElemV) -> bool {
    &&& e.sign is Positive
    &&& e.body matches NoeV::Node(NodeV::Number(r)) && r.is_one_spec()
}

/// Drop every positive literal `1` from a factor list of two or more.
pub open spec fn cside(s: Seq<ElemV>) -> Seq<ElemV>
    decreases s,
{
    if s.len() == 1 {
        s
    } else {
        cfilter(s)
    }
}

pub open spec fn cfilter(s: Seq<ElemV>) -> Seq<ElemV>
    decreases s,
{
    if s.len() == 0 {
        Seq::empty()
    } else if is_pos_one_elem(s.last()) {
        cfilter(s.drop_last())
    } else {
        cfilter(s.drop_last()).push(s.last())
    }
}

/// Identity removal: drop a product that is exactly `0`, clear a denominator
/// that is exactly `1`, drop factors `1` from sides with two or more entries.
pub open spec fn cleanup(p: ProdV) -> Seq<ProdV> {
    if p.numerator.len() == 1 && is_zero_num_elem(p.numerator[0]) && p.denominator.len() == 0 {
        Seq::empty()
    } else {
        let den = if p.denominator.len() == 1 && is_pos_one_elem(p.denominator[0]) {
            Seq::<ElemV>::empty()
        } else {
            p.denominator
        };
        seq![(ProdV { numerator: cside(p.numerator), denominator: cside(den) })]
    }
}

// ---------------------------------------------------------------------------
// Materialization.
// ---------------------------------------------------------------------------

/// Turn a coefficient and factor lists back into products: a zero
/// coefficient vanishes, a coefficient of one is left implicit when factors
/// remain, otherwise it leads the numerator.
pub open spec fn materialize_ratio(c: Rational, num: Seq<ElemV>, den: Seq<ElemV>) -> Seq<ProdV> {
    if c.is_zero_spec() {
        Seq::empty()
    } else if c.is_one_spec() && num.len() > 0 {
        seq![(ProdV { numerator: num, denominator: den })]
    } else {
        seq![(ProdV { numerator: seq![num_elem(c)].add(num), denominator: den })]
    }
}

/// What index `i` pieceutes when like products are combined.
pub open spec fn emit_grouped(items: Seq<RatItemV>, i: int) -> Seq<ProdV> {
    match items[i] {
        RatItemV::Fallback(p) => cleanup(p),
        RatItemV::Ratio { c, num, den } => {
            if is_first(items, i) {
                match group_sum(items, i) {
                    Some(sc) => materialize_ratio(sc, num, den),
                    None => Seq::empty(),
                }
            } else {
                Seq::empty()
            }
        },
    }
}

/// What index `i` pieceutes when combining is impossible.
pub open spec fn emit_single(items: Seq<RatItemV>, i: int) -> Seq<ProdV> {
    match items[i] {
        RatItemV::Fallback(p) => cleanup(p),
        RatItemV::Ratio { c, num, den } => materialize_ratio(c, num, den),
    }
}

pub open spec fn out_upto(items: Seq<RatItemV>, k: int, grouped: bool) -> Seq<ProdV>
    decreases k,
{
    if k <= 0 {
        Seq::empty()
    } else {
        out_upto(items, k - 1, grouped).add(
            if grouped {
                emit_grouped(items, k - 1)
            } else {
                emit_single(items, k - 1)
            },
        )
    }
}

/// The canonical product list of an expression whose children are already
/// normalized.
pub open spec fn norm_stage(qs: Seq<ProdV>) -> Seq<ProdV> {
    let items = items_of(qs);
    out_upto(items, items.len() as int, all_ok(items))
}

// ---------------------------------------------------------------------------
// The recursive pass.
// ---------------------------------------------------------------------------

pub open spec fn norm_elem(e: ElemV) -> ElemV
    decreases e, 0int,
{
    match e.body {
        NoeV::Node(n) => ElemV { sign: e.sign, body: NoeV::Node(norm_node(n)), cache: None },
        NoeV::Expression(x) => ElemV {
            sign: e.sign,
            body: NoeV::Expression(ExprV { products: norm_pseq(x.products) }),
            cache: None,
        },
    }
}

pub open spec fn norm_node(n: NodeV) -> NodeV
    decreases n, 0int,
{
    match n {
        NodeV::Number(r) => NodeV::Number(r),
        NodeV::Variable(name) => NodeV::Variable(name),
        NodeV::Power { base, power } => NodeV::Power {
            base: Box::new(norm_elem(*base)),
            power: Box::new(norm_elem(*power)),
        },
        NodeV::Modulo { lhs, rhs } => NodeV::Modulo {
            lhs: Box::new(norm_elem(*lhs)),
            rhs: Box::new(norm_elem(*rhs)),
        },
        NodeV::Factorial { child } => NodeV::Factorial { child: Box::new(norm_elem(*child)) },
        NodeV::Function { name, arguments } => NodeV::Function {
            name,
            arguments: norm_eseq(arguments),
        },
    }
}

pub open spec fn norm_eseq(s: Seq<ElemV>) -> Seq<ElemV>
    decreases s, 0int,
{
    if s.len() == 0 {
        Seq::empty()
    } else {
        norm_eseq(s.drop_last()).push(norm_elem(s.last()))
    }
}

pub proof fn lemma_norm_eseq(s: Seq<ElemV>)
    ensures
        norm_eseq(s).len() == s.len(),
        forall|i: int| 0 <= i < s.len() ==> norm_eseq(s)[i] == norm_elem(s[i]),
    decreases s,
{
    if s.len() > 0 {
        lemma_norm_eseq(s.drop_last());
    }
}

pub open spec fn norm_prod(p: ProdV) -> ProdV
    decreases p, 0int,
{
    ProdV { numerator: norm_eseq(p.numerator), denominator: norm_eseq(p.denominator) }
}

pub open spec fn norm_children(s: Seq<ProdV>) -> Seq<ProdV>
    decreases s, 0int,
{
    if s.len() == 0 {
        Seq::empty()
    } else {
        norm_children(s.drop_last()).push(norm_prod(s.last()))
    }
}

pub proof fn lemma_norm_children(s: Seq<ProdV>)
    ensures
        norm_children(s).len() == s.len(),
        forall|i: int| 0 <= i < s.len() ==> norm_children(s)[i] == norm_prod(s[i]),
    decreases s,
{
    if s.len() > 0 {
        lemma_norm_children(s.drop_last());
    }
}

pub open spec fn norm_pseq(s: Seq<ProdV>) -> Seq<ProdV>
    decreases s, 1int,
{
    norm_stage(norm_children(s))
}

/// One equation side: normalize, then collapse an emptied expression to `0`.
pub open spec fn simp_side(e: ElemV) -> ElemV {
    let e2 = norm_elem(e);
    if e2.body matches NoeV::Expression(x) && x.products.len() == 0 {
        num_elem(rat_zero())
    } else {
        e2
    }
}

pub open spec fn simp_sides(s: Seq<ElemV>) -> Seq<ElemV> {
    Seq::new(s.len(), |i: int| simp_side(s[i]))
}

// ---------------------------------------------------------------------------
// Executable rationalization.
// ---------------------------------------------------------------------------

/// Executable counterpart of `RatItemV`.
pub enum RatItem {
    Ratio { c: Rational, num: Vec<Element>, den: Vec<Element> },
    Fallback(Product),
}

pub open spec fn item_view(it: RatItem) -> RatItemV {
    match it {
        RatItem::Ratio { c, num, den } => RatItemV::Ratio {
            c,
            num: view_elem_seq(num@),
            den: view_elem_seq(den@),
        },
        RatItem::Fallback(p) => RatItemV::Fallback(view_product(p)),
    }
}

pub open spec fn items_view(s: Seq<RatItem>) -> Seq<RatItemV> {
    Seq::new(s.len(), |j: int| item_view(s[j]))
}

/// A failed fold stays failed as more factors are taken in.
proof fn lemma_rat_side_none(s: Seq<ElemV>, k1: int, k2: int)
    requires
        0 <= k1 <= k2,
        rat_side_upto(s, k1) is None,
    ensures
        rat_side_upto(s, k2) is None,
    decreases k2,
{
    if k2 > k1 {
        lemma_rat_side_none(s, k1, k2 - 1);
    }
}

fn rat_side_exec(v: &Vec<Element>) -> (r: Option<(Rational, Vec<Element>)>)
    ensures
        match r {
            Some(p) => rat_side(view_elem_seq(v@)) == Some((p.0, view_elem_seq(p.1@))),
            None => rat_side(view_elem_seq(v@)) is None,
        },
{
    let ghost sv = view_elem_seq(v@);
    proof {
        lemma_view_elem_seq(v@);
    }
    let mut c = Rational::one();
    let mut fs: Vec<Element> = Vec::new();
    let n = v.len();
    let mut i: usize = 0;
    proof {
        assert(c == rat_one());
        assert(view_elem_seq(fs@) =~= Seq::<ElemV>::empty());
    }
    while i < n
        invariant
            n == v@.len(),
            sv == view_elem_seq(v@),
            sv.len() == n,
            forall|j: int| 0 <= j < n ==> sv[j] == view_element(v@[j]),
            0 <= i <= n,
            rat_side_upto(sv, i as int) == Some((c, view_elem_seq(fs@))),
        decreases n - i,
    {
        let ghost fs0 = view_elem_seq(fs@);
        let ghost fsr0 = fs@;
        let e = &v[i];
        proof {
            assert(e@ == sv[i as int]);
        }
        let is_neg = e.sign == Sign::Negative;
        let mut handled_number = false;
        match &e.node_or_expression {
            NodeOrExpression::Node(Node::Number(x)) => {
                let signed = if is_neg {
                    x.checked_neg()
                } else {
                    Some(*x)
                };
                match signed {
                    None => {
                        proof {
                            assert(rat_side_upto(sv, i as int + 1) is None);
                            lemma_rat_side_none(sv, i as int + 1, sv.len() as int);
                        }
                        return None;
                    },
                    Some(sr) => {
                        match c.checked_mul(&sr) {
                            None => {
                                proof {
                                    assert(rat_side_upto(sv, i as int + 1) is None);
                                    lemma_rat_side_none(sv, i as int + 1, sv.len() as int);
                                }
                                return None;
                            },
                            Some(c2) => {
                                c = c2;
                                proof {
                                    assert(rat_side_upto(sv, i as int + 1) == Some(
                                        (c, view_elem_seq(fs@)),
                                    ));
                                }
                            },
                        }
                    },
                }
            },
            _ => {
                if is_neg {
                    let m1 = Rational::from_integer(-1);
                    proof {
                        assert(m1 == rat_minus_one());
                    }
                    match c.checked_mul(&m1) {
                        None => {
                            proof {
                                assert(rat_side_upto(sv, i as int + 1) is None);
                                lemma_rat_side_none(sv, i as int + 1, sv.len() as int);
                            }
                            return None;
                        },
                        Some(c2) => {
                            c = c2;
                        },
                    }
                }
                let mut d = v[i].duplicate();
                d.sign = Sign::Positive;
                proof {
                    assert(view_element(d) =~~= pos_of(sv[i as int]));
                }
                fs.push(d);
                proof {
                    assert(fs@.drop_last() =~= fsr0);
                    assert(view_elem_seq(fs@) == view_elem_seq(fs@.drop_last()).push(
                        view_element(fs@.last()),
                    ));
                    assert(view_elem_seq(fs@.drop_last()) == view_elem_seq(fsr0));
                    assert(view_elem_seq(fs@) =~= fs0.push(pos_of(sv[i as int])));
                    assert(rat_side_upto(sv, i as int + 1) == Some((c, view_elem_seq(fs@))));
                }
            },
        }
        i += 1;
    }
    proof {
        assert(rat_side(sv) == Some((c, view_elem_seq(fs@))));
    }
    Some((c, fs))
}

fn rat_prod_exec(p: &Product) -> (r: RatItem)
    ensures
        item_view(r) == rat_prod(view_product(*p)),
{
    let ghost pv = view_product(*p);
    match rat_side_exec(&p.numerator) {
        None => RatItem::Fallback(dup_prod(p)),
        Some((cn, nf)) => {
            match rat_side_exec(&p.denominator) {
                None => RatItem::Fallback(dup_prod(p)),
                Some((cd, df)) => {
                    if cd.is_zero() {
                        RatItem::Fallback(dup_prod(p))
                    } else {
                        match cd.checked_invert() {
                            None => RatItem::Fallback(dup_prod(p)),
                            Some(ci) => match cn.checked_mul(&ci) {
                                None => RatItem::Fallback(dup_prod(p)),
                                Some(cc) => {
                                    let r = RatItem::Ratio { c: cc, num: nf, den: df };
                                    proof {
                                        assert(item_view(r) =~~= rat_prod(pv));
                                    }
                                    r
                                },
                            },
                        }
                    }
                },
            }
        },
    }
}

fn same_key_exec(a: &RatItem, b: &RatItem) -> (r: bool)
    ensures
        r == same_key(item_view(*a), item_view(*b)),
{
    match (a, b) {
        (
            RatItem::Ratio { num: na, den: da, .. },
            RatItem::Ratio { num: nb, den: db, .. },
        ) => eq_tree_eseq(na, nb) && eq_tree_eseq(da, db),
        _ => false,
    }
}

fn is_first_exec(items: &Vec<RatItem>, i: usize) -> (r: bool)
    requires
        i < items@.len(),
    ensures
        r == is_first(items_view(items@), i as int),
{
    let ghost iv = items_view(items@);
    let first_check = match &items[i] {
        RatItem::Ratio { .. } => true,
        RatItem::Fallback(_) => false,
    };
    if !first_check {
        proof {
            assert(iv[i as int] == item_view(items@[i as int]));
            assert(!(iv[i as int] is Ratio));
        }
        return false;
    }
    proof {
        assert(iv[i as int] == item_view(items@[i as int]));
        assert(iv[i as int] is Ratio);
    }
    let mut j: usize = 0;
    while j < i
        invariant
            i < items@.len(),
            iv == items_view(items@),
            0 <= j <= i,
            iv[i as int] is Ratio,
            forall|k: int| 0 <= k < j ==> !same_key(#[trigger] iv[k], iv[i as int]),
        decreases i - j,
    {
        proof {
            assert(iv[j as int] == item_view(items@[j as int]));
        }
        if same_key_exec(&items[j], &items[i]) {
            proof {
                assert(same_key(iv[j as int], iv[i as int]));
            }
            return false;
        }
        j += 1;
    }
    true
}

/// A failed coefficient sum stays failed as more products are taken in.
proof fn lemma_sum_none(items: Seq<RatItemV>, i: int, k1: int, k2: int)
    requires
        0 <= k1 <= k2,
        sum_upto(items, i, k1) is None,
    ensures
        sum_upto(items, i, k2) is None,
    decreases k2,
{
    if k2 > k1 {
        lemma_sum_none(items, i, k1, k2 - 1);
    }
}

fn group_sum_exec(items: &Vec<RatItem>, i: usize) -> (r: Option<Rational>)
    requires
        i < items@.len(),
    ensures
        r == group_sum(items_view(items@), i as int),
{
    let ghost iv = items_view(items@);
    let mut acc = Rational::from_integer(0);
    proof {
        assert(acc == rat_zero());
    }
    let n = items.len();
    let mut k: usize = 0;
    while k < n
        invariant
            i < items@.len(),
            n == items@.len(),
            iv == items_view(items@),
            0 <= k <= n,
            sum_upto(iv, i as int, k as int) == Some(acc),
        decreases n - k,
    {
        proof {
            assert(iv[k as int] == item_view(items@[k as int]));
            assert(iv[i as int] == item_view(items@[i as int]));
        }
        if same_key_exec(&items[k], &items[i]) {
            let ck = match &items[k] {
                RatItem::Ratio { c, .. } => *c,
                RatItem::Fallback(_) => {
                    proof {
                        assert(false);
                    }
                    Rational::from_integer(0)
                },
            };
            proof {
                assert(iv[k as int]->c == ck);
            }
            match acc.checked_add(&ck) {
                None => {
                    proof {
                        assert(sum_upto(iv, i as int, k as int + 1) is None);
                        lemma_sum_none(iv, i as int, k as int + 1, iv.len() as int);
                    }
                    return None;
                },
                Some(a2) => {
                    acc = a2;
                },
            }
        }
        k += 1;
    }
    Some(acc)
}

// ---------------------------------------------------------------------------
// Executable identity removal and materialization.
// ---------------------------------------------------------------------------

pub(crate) proof fn lemma_view_eseq_push(s: Seq<Element>)
    requires
        s.len() > 0,
    ensures
        view_elem_seq(s) == view_elem_seq(s.drop_last()).push(view_element(s.last())),
{
}

pub(crate) proof fn lemma_view_pseq_push(s: Seq<Product>)
    requires
        s.len() > 0,
    ensures
        view_prod_seq(s) == view_prod_seq(s.drop_last()).push(view_product(s.last())),
{
}

fn is_pos_one_exec(e: &Element) -> (r: bool)
    ensures
        r == is_pos_one_elem(e@),
{
    if !(e.sign == Sign::Positive) {
        return false;
    }
    match &e.node_or_expression {
        NodeOrExpression::Node(Node::Number(x)) => x.is_one(),
        _ => false,
    }
}

fn is_zero_num_exec(e: &Element) -> (r: bool)
    ensures
        r == is_zero_num_elem(e@),
{
    match &e.node_or_expression {
        NodeOrExpression::Node(Node::Number(x)) => x.is_zero(),
        _ => false,
    }
}

fn cfilter_exec(v: &Vec<Element>) -> (r: Vec<Element>)
    ensures
        view_elem_seq(r@) == cfilter(view_elem_seq(v@)),
{
    let ghost sv = view_elem_seq(v@);
    proof {
        lemma_view_elem_seq(v@);
        assert(sv.subrange(0, 0) =~= Seq::<ElemV>::empty());
        assert(cfilter(sv.subrange(0, 0)) =~= Seq::<ElemV>::empty());
    }
    let mut out: Vec<Element> = Vec::new();
    let n = v.len();
    let mut i: usize = 0;
    while i < n
        invariant
            n == v@.len(),
            sv == view_elem_seq(v@),
            sv.len() == n,
            forall|j: int| 0 <= j < n ==> sv[j] == view_element(v@[j]),
            0 <= i <= n,
            view_elem_seq(out@) == cfilter(sv.subrange(0, i as int)),
        decreases n - i,
    {
        proof {
            assert(sv.subrange(0, i as int + 1).drop_last() =~= sv.subrange(0, i as int));
            assert(sv.subrange(0, i as int + 1).last() == sv[i as int]);
        }
        if !is_pos_one_exec(&v[i]) {
            let ghost outr0 = out@;
            let ghost outv0 = view_elem_seq(out@);
            out.push(v[i].duplicate());
            proof {
                assert(out@.drop_last() =~= outr0);
                lemma_view_eseq_push(out@);
                assert(view_elem_seq(out@.drop_last()) == outv0);
                assert(view_elem_seq(out@) == outv0.push(sv[i as int]));
            }
        }
        i += 1;
    }
    proof {
        assert(sv.subrange(0, n as int) =~= sv);
    }
    out
}

fn cside_exec(v: &Vec<Element>) -> (r: Vec<Element>)
    ensures
        view_elem_seq(r@) == cside(view_elem_seq(v@)),
{
    proof {
        lemma_view_elem_seq(v@);
    }
    if v.len() == 1 {
        dup_eseq(v)
    } else {
        cfilter_exec(v)
    }
}

fn cleanup_exec(p: &Product) -> (r: Option<Product>)
    ensures
        match r {
            None => cleanup(view_product(*p)) == Seq::<ProdV>::empty(),
            Some(q) => cleanup(view_product(*p)) == seq![view_product(q)],
        },
{
    let ghost pv = view_product(*p);
    proof {
        lemma_view_elem_seq(p.numerator@);
        lemma_view_elem_seq(p.denominator@);
    }
    if p.numerator.len() == 1 && p.denominator.len() == 0 && is_zero_num_exec(&p.numerator[0]) {
        return None;
    }
    let den: Vec<Element> = if p.denominator.len() == 1 && is_pos_one_exec(&p.denominator[0]) {
        Vec::new()
    } else {
        dup_eseq(&p.denominator)
    };
    proof {
        assert(view_elem_seq(Seq::<Element>::empty()) =~= Seq::<ElemV>::empty());
    }
    let q = Product { numerator: cside_exec(&p.numerator), denominator: cside_exec(&den) };
    proof {
        assert(view_product(q) =~~= cleanup(pv)[0]);
        assert(cleanup(pv) =~= seq![view_product(q)]);
    }
    Some(q)
}

fn materialize_exec(c: Rational, num: &Vec<Element>, den: &Vec<Element>) -> (r: Option<Product>)
    ensures
        match r {
            None => materialize_ratio(c, view_elem_seq(num@), view_elem_seq(den@))
                == Seq::<ProdV>::empty(),
            Some(q) => materialize_ratio(c, view_elem_seq(num@), view_elem_seq(den@)) == seq![
                view_product(q),
            ],
        },
{
    let ghost vnum = view_elem_seq(num@);
    let ghost vden = view_elem_seq(den@);
    if c.is_zero() {
        return None;
    }
    if c.is_one() && num.len() > 0 {
        proof {
            lemma_view_elem_seq(num@);
        }
        let q = Product { numerator: dup_eseq(num), denominator: dup_eseq(den) };
        proof {
            assert(view_product(q) =~~= materialize_ratio(c, vnum, vden)[0]);
            assert(materialize_ratio(c, vnum, vden) =~= seq![view_product(q)]);
        }
        return Some(q);
    }
    let mut nn: Vec<Element> = Vec::new();
    nn.push(Element::new(Sign::Positive, NodeOrExpression::Node(Node::Number(c))));
    proof {
        assert(nn@.drop_last() =~= Seq::<Element>::empty());
        lemma_view_eseq_push(nn@);
        assert(view_elem_seq(nn@) =~= seq![num_elem(c)]);
    }
    let ghost nn1 = view_elem_seq(nn@);
    let mut rest = dup_eseq(num);
    let ghost rest0 = rest@;
    let ghost restv = view_elem_seq(rest@);
    let ghost nnr0 = nn@;
    nn.append(&mut rest);
    proof {
        lemma_view_elem_seq(nnr0);
        lemma_view_elem_seq(rest0);
        lemma_view_elem_seq(num@);
        assert(restv.len() == rest0.len());
        assert(nn1.len() == 1);
        assert(nn@.len() == nn1.len() + restv.len());
        assert(forall|i: int| 0 <= i < 1 ==> view_element(#[trigger] nn@[i]) == nn1[i]);
        assert(forall|i: int|
            1 <= i < nn@.len() ==> view_element(#[trigger] nn@[i]) == restv[i - 1]);
        lemma_view_concat(nn@, nn1, restv);
        assert(view_elem_seq(nn@) == nn1.add(restv));
        assert(restv == vnum);
    }
    let q = Product { numerator: nn, denominator: dup_eseq(den) };
    proof {
        assert(view_product(q) =~~= materialize_ratio(c, vnum, vden)[0]);
        assert(materialize_ratio(c, vnum, vden) =~= seq![view_product(q)]);
    }
    Some(q)
}

/// The view of a concatenation is the concatenation of the views.
pub(crate) proof fn lemma_view_concat(s: Seq<Element>, a: Seq<ElemV>, b: Seq<ElemV>)
    requires
        s.len() == a.len() + b.len(),
        forall|i: int| 0 <= i < a.len() ==> view_element(#[trigger] s[i]) == a[i],
        forall|i: int| a.len() <= i < s.len() ==> view_element(#[trigger] s[i]) == b[i - a.len()],
    ensures
        view_elem_seq(s) == a.add(b),
{
    lemma_view_elem_seq(s);
    assert(view_elem_seq(s) =~= a.add(b));
}

// ---------------------------------------------------------------------------
// The executable staging pass.
// ---------------------------------------------------------------------------

fn norm_stage_exec(qs: &Vec<Product>) -> (r: Vec<Product>)
    ensures
        view_prod_seq(r@) == norm_stage(view_prod_seq(qs@)),
{
    let ghost qsv = view_prod_seq(qs@);
    proof {
        lemma_view_prod_seq(qs@);
    }
    let n = qs.len();
    let mut items: Vec<RatItem> = Vec::new();
    let mut i: usize = 0;
    while i < n
        invariant
            n == qs@.len(),
            qsv == view_prod_seq(qs@),
            qsv.len() == n,
            forall|j: int| 0 <= j < n ==> qsv[j] == view_product(qs@[j]),
            0 <= i <= n,
            items@.len() == i,
            forall|j: int| 0 <= j < i ==> item_view(#[trigger] items@[j]) == rat_prod(qsv[j]),
        decreases n - i,
    {
        items.push(rat_prod_exec(&qs[i]));
        i += 1;
    }
    let ghost iv = items_view(items@);
    proof {
        assert(iv =~= items_of(qsv));
        assert(forall|j: int| 0 <= j < n ==> iv[j] == item_view(items@[j]));
    }
    let mut ok = true;
    let mut i: usize = 0;
    while i < n
        invariant
            n == items@.len(),
            iv == items_view(items@),
            iv.len() == n,
            0 <= i <= n,
            ok == (forall|j: int|
                0 <= j < i && is_first(iv, j) ==> (#[trigger] group_sum(iv, j)) is Some),
        decreases n - i,
    {
        if is_first_exec(&items, i) {
            match group_sum_exec(&items, i) {
                None => {
                    ok = false;
                },
                Some(_) => {
                },
            }
        }
        i += 1;
    }
    proof {
        assert(ok == all_ok(iv));
    }
    let ghost grouped = all_ok(iv);
    let mut out: Vec<Product> = Vec::new();
    let mut i: usize = 0;
    proof {
        assert(view_prod_seq(out@) =~= out_upto(iv, 0, grouped));
    }
    while i < n
        invariant
            n == items@.len(),
            iv == items_view(items@),
            iv.len() == n,
            0 <= i <= n,
            ok == grouped,
            grouped == all_ok(iv),
            view_prod_seq(out@) == out_upto(iv, i as int, grouped),
        decreases n - i,
    {
        proof {
            assert(iv[i as int] == item_view(items@[i as int]));
        }
        let piece: Option<Product> = match &items[i] {
            RatItem::Fallback(p) => cleanup_exec(p),
            RatItem::Ratio { c, num, den } => {
                if ok {
                    if is_first_exec(&items, i) {
                        match group_sum_exec(&items, i) {
                            Some(sc) => materialize_exec(sc, num, den),
                            None => {
                                proof {
                                    assert(false);
                                }
                                None
                            },
                        }
                    } else {
                        None
                    }
                } else {
                    materialize_exec(*c, num, den)
                }
            },
        };
        let ghost emitted = if grouped {
            emit_grouped(iv, i as int)
        } else {
            emit_single(iv, i as int)
        };
        match piece {
            Some(q) => {
                let ghost outr0 = out@;
                let ghost outv0 = view_prod_seq(out@);
                out.push(q);
                proof {
                    assert(out@.drop_last() =~= outr0);
                    lemma_view_pseq_push(out@);
                    assert(view_prod_seq(out@.drop_last()) == outv0);
                    assert(emitted.len() == 1);
                    assert(view_prod_seq(out@) =~= outv0.add(emitted));
                }
            },
            None => {
                proof {
                    assert(emitted.len() == 0);
                    assert(view_prod_seq(out@) =~= view_prod_seq(out@).add(emitted));
                }
            },
        }
        i += 1;
    }
    proof {
        assert(view_prod_seq(out@) == out_upto(iv, n as int, grouped));
        assert(iv =~= items_of(qsv));
        assert(norm_stage(qsv) == out_upto(items_of(qsv), items_of(qsv).len() as int, all_ok(
            items_of(qsv),
        )));
    }
    out
}

// ---------------------------------------------------------------------------
// The executable recursive pass.
// ---------------------------------------------------------------------------

pub fn norm_elem_exec(e: &Element) -> (r: Element)
    ensures
        view_element(r) == norm_elem(e@),
    decreases crate::is_same::size_elem(e@), 1int,
{
    match &e.node_or_expression {
        NodeOrExpression::Node(n) => {
            let r = Element {
                sign: e.sign,
                node_or_expression: NodeOrExpression::Node(norm_node_exec(n)),
                cache: None,
            };
            proof {
                assert(view_element(r) =~~= norm_elem(e@));
            }
            r
        },
        NodeOrExpression::Expression(x) => {
            let ghost xv = view_prod_seq(x.products@);
            proof {
                lemma_view_prod_seq(x.products@);
            }
            let n = x.products.len();
            proof {
                assert(view_element(*e).body == NoeV::Expression(ExprV { products: xv }));
            }
            let mut ch: Vec<Product> = Vec::new();
            let mut i: usize = 0;
            while i < n
                invariant
                    n == x.products@.len(),
                    xv == view_prod_seq(x.products@),
                    e@.body == NoeV::Expression(ExprV { products: xv }),
                    xv.len() == n,
                    forall|j: int| 0 <= j < n ==> xv[j] == view_product(x.products@[j]),
                    0 <= i <= n,
                    ch@.len() == i,
                    forall|j: int|
                        0 <= j < i ==> view_product(#[trigger] ch@[j]) == norm_prod(xv[j]),
                decreases n - i,
            {
                proof {
                    assert(xv[i as int] == view_product(x.products@[i as int]));
                    crate::is_same::lemma_size_pseq_elem(xv, i as int);
                    assert(e@.body->Expression_0.products == xv);
                    assert(crate::is_same::size_noe(e@.body) == 1 + crate::is_same::size_pseq(
                        xv,
                    ));
                    assert(crate::is_same::size_elem(e@) == 1 + crate::is_same::size_noe(
                        e@.body,
                    ));
                }
                ch.push(norm_prod_exec(&x.products[i]));
                i += 1;
            }
            proof {
                lemma_view_prod_seq(ch@);
                lemma_norm_children(xv);
                assert(view_prod_seq(ch@) =~= norm_children(xv));
            }
            let staged = norm_stage_exec(&ch);
            let r = Element {
                sign: e.sign,
                node_or_expression: NodeOrExpression::Expression(Expression { products: staged }),
                cache: None,
            };
            proof {
                assert(view_element(r) =~~= norm_elem(e@));
            }
            r
        },
    }
}

fn norm_node_exec(n: &Node) -> (r: Node)
    ensures
        view_node(r) == norm_node(n@),
    decreases crate::is_same::size_node(n@), 1int,
{
    match n {
        Node::Number(x) => Node::Number(*x),
        Node::Variable(s) => Node::Variable(s.clone()),
        Node::Power { base, power } => Node::Power {
            base: Box::new(norm_elem_exec(base)),
            power: Box::new(norm_elem_exec(power)),
        },
        Node::Modulo { lhs, rhs } => Node::Modulo {
            lhs: Box::new(norm_elem_exec(lhs)),
            rhs: Box::new(norm_elem_exec(rhs)),
        },
        Node::Factorial { child } => Node::Factorial { child: Box::new(norm_elem_exec(child)) },
        Node::Function { name, arguments } => {
            let r = Node::Function { name: name.clone(), arguments: norm_eseq_exec(arguments) };
            proof {
                assert(view_node(r) =~~= norm_node(n@));
            }
            r
        },
    }
}

fn norm_eseq_exec(v: &Vec<Element>) -> (r: Vec<Element>)
    ensures
        view_elem_seq(r@) == norm_eseq(view_elem_seq(v@)),
    decreases crate::is_same::size_eseq(view_elem_seq(v@)), 0int,
{
    let ghost sv = view_elem_seq(v@);
    proof {
        lemma_view_elem_seq(v@);
    }
    let n = v.len();
    let mut out: Vec<Element> = Vec::new();
    let mut i: usize = 0;
    while i < n
        invariant
            n == v@.len(),
            sv == view_elem_seq(v@),
            sv.len() == n,
            forall|j: int| 0 <= j < n ==> sv[j] == view_element(v@[j]),
            0 <= i <= n,
            out@.len() == i,
            forall|j: int| 0 <= j < i ==> view_element(#[trigger] out@[j]) == norm_elem(sv[j]),
        decreases n - i,
    {
        proof {
            crate::is_same::lemma_size_eseq_elem(sv, i as int);
        }
        out.push(norm_elem_exec(&v[i]));
        i += 1;
    }
    proof {
        lemma_view_elem_seq(out@);
        lemma_norm_eseq(sv);
        assert(view_elem_seq(out@) =~= norm_eseq(sv));
    }
    out
}

fn norm_prod_exec(p: &Product) -> (r: Product)
    ensures
        view_product(r) == norm_prod(view_product(*p)),
    decreases crate::is_same::size_prod(view_product(*p)), 0int,
{
    let r = Product {
        numerator: norm_eseq_exec(&p.numerator),
        denominator: norm_eseq_exec(&p.denominator),
    };
    proof {
        assert(view_product(r) =~~= norm_prod(view_product(*p)));
    }
    r
}

} // verus!
