//! The inverse-transform engine.
//!
//! Given a two-sided, analyzed equation, the engine finds the side carrying
//! the target variable, reads off the single outermost invertible
//! transformation of that side, and applies the inverse to both sides:
//!
//! * a function from a fixed table (`sin`, `cos`, `tan`, `cot`) is peeled
//!   off by applying its paired inverse name to the other side;
//! * any other function name is treated as its own declared inverse and
//!   reapplied to the other side under a power of minus one;
//! * a lone product is split: factors without variables move to the other
//!   side with numerator and denominator swapped, emitting one `... != 0`
//!   constraint per moved side;
//! * a sum is split: products without a one-variable factor are
//!   sign-inverted and moved to the other side;
//! * any other shape yields no transformation.

use vstd::prelude::*;

use crate::analyze::{analyzed_elem, analyzed_eseq, analyzed_pseq, spec_cache, vars_of};
use crate::ast::element::{
    dup_eseq, dup_prod, lemma_view_elem_seq, lemma_view_prod_seq, view_elem_seq, view_element,
    view_prod_seq, view_product, ElemV, Element, Expression, ExprV, Node, NodeOrExpression, NodeV,
    NoeV, ProdV, Product, Sign,
};
use crate::ast::equation::Equation;
use crate::flatten::negate_prod;
use crate::normalize::num_elem;
use crate::rational::Rational;
use crate::render::{render_factors, render_factors_exec};

verus! {

// ---------------------------------------------------------------------------
// The fixed inverse-function table.
// ---------------------------------------------------------------------------

/// The paired inverse of a known function name.
pub open spec fn inverse_table(name: Seq<char>) -> Option<Seq<char>> {
    if name == "sin"@ {
        Some("arcsin"@)
    } else if name == "cos"@ {
        Some("arccos"@)
    } else if name == "tan"@ {
        Some("arctan"@)
    } else if name == "cot"@ {
        Some("arccot"@)
    } else {
        None
    }
}

fn inverse_table_exec(name: &String) -> (r: Option<String>)
    ensures
        match r {
            Some(s) => inverse_table(name@) == Some(s@),
            None => inverse_table(name@) is None,
        },
{
    let mut out: Option<String> = None;
    if *name == String::from_str("sin") {
        out = Some(String::from_str("arcsin"));
    } else if *name == String::from_str("cos") {
        out = Some(String::from_str("arccos"));
    } else if *name == String::from_str("tan") {
        out = Some(String::from_str("arctan"));
    } else if *name == String::from_str("cot") {
        out = Some(String::from_str("arccot"));
    }
    out
}

// ---------------------------------------------------------------------------
// Factor partitioning for the lone-product case.
// ---------------------------------------------------------------------------

/// How many distinct variables occur beneath a factor.
pub open spec fn var_count(e: ElemV) -> int {
    vars_of(e).len() as int
}

/// The factors carrying no variable at all.
pub open spec fn zero_var(s: Seq<ElemV>) -> Seq<ElemV>
    decreases s,
{
    if s.len() == 0 {
        Seq::empty()
    } else if var_count(s.last()) == 0 {
        zero_var(s.drop_last()).push(s.last())
    } else {
        zero_var(s.drop_last())
    }
}

/// The factors carrying exactly one variable.
pub open spec fn one_var(s: Seq<ElemV>) -> Seq<ElemV>
    decreases s,
{
    if s.len() == 0 {
        Seq::empty()
    } else if var_count(s.last()) == 1 {
        one_var(s.drop_last()).push(s.last())
    } else {
        one_var(s.drop_last())
    }
}

/// Every factor has at most one distinct variable.
pub open spec fn factors_supported(s: Seq<ElemV>) -> bool {
    forall|i: int| 0 <= i < s.len() ==> var_count(#[trigger] s[i]) <= 1
}

/// The factors that move to the other side, numerator and denominator
/// swapped: dividing both sides by the variable-free part.
pub open spec fn moved_product(p: ProdV) -> ProdV {
    ProdV { numerator: zero_var(p.denominator), denominator: zero_var(p.numerator) }
}

/// The factors that stay with the variable.
pub open spec fn kept_product(p: ProdV) -> ProdV {
    ProdV { numerator: one_var(p.numerator), denominator: one_var(p.denominator) }
}

/// The `"... != 0"` constraint for one non-empty moved side.
pub open spec fn constraint_of(s: Seq<ElemV>) -> Seq<char> {
    render_factors(s).add(" != 0"@)
}

/// The constraints a lone-product transformation emits: one per non-empty
/// moved side, numerator first.
pub open spec fn prod_constraints(m: ProdV) -> Seq<Seq<char>> {
    let first: Seq<Seq<char>> = if m.numerator.len() > 0 {
        seq![constraint_of(m.numerator)]
    } else {
        Seq::empty()
    };
    let second: Seq<Seq<char>> = if m.denominator.len() > 0 {
        seq![constraint_of(m.denominator)]
    } else {
        Seq::empty()
    };
    first.add(second)
}

// ---------------------------------------------------------------------------
// Product partitioning for the sum case.
// ---------------------------------------------------------------------------

/// A product stays with the variable when some factor carries exactly one.
pub open spec fn has_one_var_factor(p: ProdV) -> bool {
    exists|i: int|
        0 <= i < p.numerator.len() + p.denominator.len() && var_count(
            #[trigger] p.numerator.add(p.denominator)[i],
        ) == 1
}

/// The products of a sum, cut off at the first completely empty product.
pub open spec fn upto_empty(s: Seq<ProdV>) -> Seq<ProdV> {
    upto_empty_from(s, 0)
}

/// The sum's products that keep the variable.
pub open spec fn kept_prods(s: Seq<ProdV>) -> Seq<ProdV>
    decreases s,
{
    if s.len() == 0 {
        Seq::empty()
    } else if has_one_var_factor(s.last()) {
        kept_prods(s.drop_last()).push(s.last())
    } else {
        kept_prods(s.drop_last())
    }
}

/// The sum's constant products, sign-inverted for the move.
pub open spec fn moved_prods(s: Seq<ProdV>) -> Seq<ProdV>
    decreases s,
{
    if s.len() == 0 {
        Seq::empty()
    } else if has_one_var_factor(s.last()) {
        moved_prods(s.drop_last())
    } else {
        moved_prods(s.drop_last()).push(negate_prod(s.last()))
    }
}

// ---------------------------------------------------------------------------
// The transformation read off a side.
// ---------------------------------------------------------------------------

/// The single outermost invertible transformation to peel off a side.
#[derive(Debug)]
pub enum EquationTransformation {
    Function(String),
    InverseFunction(String),
    Multiply { multiply: Product, side_with_variable: Product },
    Add { add: Expression, side_with_variable: Expression },
}

/// Model of a transformation.
pub enum TransV {
    Function(Seq<char>),
    InverseFunction(Seq<char>),
    Multiply { multiply: ProdV, side_with_variable: ProdV },
    Add { add: Seq<ProdV>, side_with_variable: Seq<ProdV> },
}

pub open spec fn trans_view(t: EquationTransformation) -> TransV {
    match t {
        EquationTransformation::Function(n) => TransV::Function(n@),
        EquationTransformation::InverseFunction(n) => TransV::InverseFunction(n@),
        EquationTransformation::Multiply { multiply, side_with_variable } => TransV::Multiply {
            multiply: view_product(multiply),
            side_with_variable: view_product(side_with_variable),
        },
        EquationTransformation::Add { add, side_with_variable } => TransV::Add {
            add: view_prod_seq(add.products@),
            side_with_variable: view_prod_seq(side_with_variable.products@),
        },
    }
}

/// What the engine decides for a side: a transformation together with the
/// constraints it emits, or nothing when no shape applies.
pub open spec fn inverse_spec(e: ElemV) -> Option<(TransV, Seq<Seq<char>>)> {
    match e.body {
        NoeV::Node(nd) => match nd {
            NodeV::Function { name, arguments } => match inverse_table(name) {
                Some(paired) => Some((TransV::Function(paired), Seq::empty())),
                None => Some((TransV::InverseFunction(name), Seq::empty())),
            },
            _ => None,
        },
        NoeV::Expression(x) => {
            if x.products.len() == 0 {
                None
            } else if x.products.len() == 1 {
                let m = moved_product(x.products[0]);
                let k = kept_product(x.products[0]);
                if m.numerator.len() == 0 && m.denominator.len() == 0 {
                    None
                } else {
                    Some((
                        TransV::Multiply { multiply: m, side_with_variable: k },
                        prod_constraints(m),
                    ))
                }
            } else {
                let cut = upto_empty(x.products);
                let moved = moved_prods(cut);
                if moved.len() == 0 {
                    None
                } else {
                    Some((
                        TransV::Add { add: moved, side_with_variable: kept_prods(cut) },
                        Seq::empty(),
                    ))
                }
            }
        },
    }
}

// ---------------------------------------------------------------------------
// Executable partitioning.
// ---------------------------------------------------------------------------

pub open spec fn strs_view(s: Seq<String>) -> Seq<Seq<char>> {
    Seq::new(s.len(), |i: int| s[i]@)
}

/// How many distinct variables an analyzed element's cache reports.
pub fn variable_count(e: &Element) -> (r: u64)
    requires
        analyzed_elem(e@),
    ensures
        r as int == var_count(e@),
        r as int == vars_of(e@).len(),
{
    match &e.cache {
        Some(c) => {
            proof {
                assert(e@.cache == Some(spec_cache(e@)));
                assert(c@.n_variables == vars_of(e@).len());
            }
            let n = c.variables.len();
            proof {
                assert(c.variables@.len() == vars_of(e@).len());
            }
            n as u64
        },
        None => {
            proof {
                assert(false);
            }
            0
        },
    }
}

/// Partition one product's factors: variable-free factors move (sides
/// swapped), one-variable factors stay; emit the `!= 0` constraints.
pub fn one_product(product: &Product, constraints: &mut Vec<String>) -> (r: Option<
    (Product, Product),
>)
    requires
        analyzed_eseq(view_elem_seq(product.numerator@)),
        analyzed_eseq(view_elem_seq(product.denominator@)),
        factors_supported(view_elem_seq(product.numerator@)),
        factors_supported(view_elem_seq(product.denominator@)),
    ensures
        ({
            let pv = view_product(*product);
            let m = moved_product(pv);
            match r {
                None => {
                    &&& m.numerator.len() == 0 && m.denominator.len() == 0
                    &&& final(constraints)@ == old(constraints)@
                },
                Some((mp, kp)) => {
                    &&& !(m.numerator.len() == 0 && m.denominator.len() == 0)
                    &&& view_product(mp) == m
                    &&& view_product(kp) == kept_product(pv)
                    &&& strs_view(final(constraints)@) == strs_view(old(constraints)@).add(
                        prod_constraints(m),
                    )
                },
            }
        }),
{
    let ghost nv = view_elem_seq(product.numerator@);
    let ghost dv = view_elem_seq(product.denominator@);
    proof {
        lemma_view_elem_seq(product.numerator@);
        lemma_view_elem_seq(product.denominator@);
    }
    let mut moved_num: Vec<Element> = Vec::new();
    let mut moved_den: Vec<Element> = Vec::new();
    let mut kept_num: Vec<Element> = Vec::new();
    let mut kept_den: Vec<Element> = Vec::new();
    let n = product.numerator.len();
    let mut i: usize = 0;
    proof {
        assert(nv.subrange(0, 0) =~= Seq::<ElemV>::empty());
    }
    while i < n
        invariant
            n == product.numerator@.len(),
            nv == view_elem_seq(product.numerator@),
            nv.len() == n,
            forall|j: int| 0 <= j < n ==> nv[j] == view_element(product.numerator@[j]),
            analyzed_eseq(nv),
            factors_supported(nv),
            0 <= i <= n,
            view_elem_seq(moved_den@) == zero_var(nv.subrange(0, i as int)),
            view_elem_seq(kept_num@) == one_var(nv.subrange(0, i as int)),
        decreases n - i,
    {
        proof {
            assert(nv.subrange(0, i as int + 1).drop_last() =~= nv.subrange(0, i as int));
            assert(nv.subrange(0, i as int + 1).last() == nv[i as int]);
            assert(analyzed_elem(nv[i as int]));
            assert(var_count(nv[i as int]) <= 1);
        }
        let vc = variable_count(&product.numerator[i]);
        if vc == 0 {
            let ghost before = moved_den@;
            moved_den.push(product.numerator[i].duplicate());
            proof {
                assert(moved_den@.drop_last() =~= before);
                crate::normalize::lemma_view_eseq_push(moved_den@);
            }
        } else {
            let ghost before = kept_num@;
            kept_num.push(product.numerator[i].duplicate());
            proof {
                assert(kept_num@.drop_last() =~= before);
                crate::normalize::lemma_view_eseq_push(kept_num@);
            }
        }
        i += 1;
    }
    proof {
        assert(nv.subrange(0, n as int) =~= nv);
    }
    let dn = product.denominator.len();
    let mut i: usize = 0;
    proof {
        assert(dv.subrange(0, 0) =~= Seq::<ElemV>::empty());
    }
    while i < dn
        invariant
            dn == product.denominator@.len(),
            dv == view_elem_seq(product.denominator@),
            dv.len() == dn,
            forall|j: int| 0 <= j < dn ==> dv[j] == view_element(product.denominator@[j]),
            analyzed_eseq(dv),
            factors_supported(dv),
            0 <= i <= dn,
            view_elem_seq(moved_num@) == zero_var(dv.subrange(0, i as int)),
            view_elem_seq(kept_den@) == one_var(dv.subrange(0, i as int)),
        decreases dn - i,
    {
        proof {
            assert(dv.subrange(0, i as int + 1).drop_last() =~= dv.subrange(0, i as int));
            assert(dv.subrange(0, i as int + 1).last() == dv[i as int]);
            assert(analyzed_elem(dv[i as int]));
            assert(var_count(dv[i as int]) <= 1);
        }
        let vc = variable_count(&product.denominator[i]);
        if vc == 0 {
            let ghost before = moved_num@;
            moved_num.push(product.denominator[i].duplicate());
            proof {
                assert(moved_num@.drop_last() =~= before);
                crate::normalize::lemma_view_eseq_push(moved_num@);
            }
        } else {
            let ghost before = kept_den@;
            kept_den.push(product.denominator[i].duplicate());
            proof {
                assert(kept_den@.drop_last() =~= before);
                crate::normalize::lemma_view_eseq_push(kept_den@);
            }
        }
        i += 1;
    }
    proof {
        assert(dv.subrange(0, dn as int) =~= dv);
    }
    if moved_num.len() == 0 && moved_den.len() == 0 {
        return None;
    }
    let ghost m = moved_product(view_product(*product));
    let ghost cs0 = strs_view(constraints@);
    if moved_num.len() > 0 {
        let mut c = render_factors_exec(&moved_num);
        proof {
            reveal_strlit(" != 0");
        }
        c.append(" != 0");
        let ghost before = constraints@;
        constraints.push(c);
        proof {
            assert(strs_view(constraints@) =~= strs_view(before).push(constraint_of(
                m.numerator,
            )));
        }
    }
    if moved_den.len() > 0 {
        let mut c = render_factors_exec(&moved_den);
        proof {
            reveal_strlit(" != 0");
        }
        c.append(" != 0");
        let ghost before = constraints@;
        constraints.push(c);
        proof {
            assert(strs_view(constraints@) =~= strs_view(before).push(constraint_of(
                m.denominator,
            )));
        }
    }
    let mp = Product { numerator: moved_num, denominator: moved_den };
    let kp = Product { numerator: kept_num, denominator: kept_den };
    proof {
        assert(view_product(mp) =~~= m);
        assert(view_product(kp) =~~= kept_product(view_product(*product)));
        assert(strs_view(constraints@) =~= cs0.add(prod_constraints(m)));
    }
    Some((mp, kp))
}

/// Partition a sum's products: those with a one-variable factor stay, the
/// rest are sign-inverted and moved; scanning stops at an empty product.
pub fn multiple_products(expression: &Expression) -> (r: Option<(Expression, Expression)>)
    requires
        analyzed_pseq(view_prod_seq(expression.products@)),
    ensures
        ({
            let cut = upto_empty(view_prod_seq(expression.products@));
            match r {
                None => moved_prods(cut).len() == 0,
                Some((add, with_var)) => {
                    &&& moved_prods(cut).len() > 0
                    &&& view_prod_seq(add.products@) == moved_prods(cut)
                    &&& view_prod_seq(with_var.products@) == kept_prods(cut)
                },
            }
        }),
{
    let ghost pv = view_prod_seq(expression.products@);
    proof {
        lemma_view_prod_seq(expression.products@);
    }
    let n = expression.products.len();
    let mut moved: Vec<Product> = Vec::new();
    let mut kept: Vec<Product> = Vec::new();
    let mut i: usize = 0;
    let mut stopped = false;
    proof {
        assert(pv.subrange(0, 0) =~= Seq::<ProdV>::empty());
    }
    while i < n && !stopped
        invariant
            n == expression.products@.len(),
            pv == view_prod_seq(expression.products@),
            pv.len() == n,
            forall|j: int| 0 <= j < n ==> pv[j] == view_product(expression.products@[j]),
            analyzed_pseq(pv),
            0 <= i <= n,
            forall|j: int|
                0 <= j < i ==> !((#[trigger] pv[j]).numerator.len() == 0 && pv[j].denominator.len()
                    == 0),
            stopped ==> i < n && pv[i as int].numerator.len() == 0 && pv[
                i as int
            ].denominator.len() == 0,
            view_prod_seq(moved@) == moved_prods(pv.subrange(0, i as int)),
            view_prod_seq(kept@) == kept_prods(pv.subrange(0, i as int)),
        decreases n - i, if stopped { 0int } else { 1int },
    {
        let p = &expression.products[i];
        if p.numerator.len() == 0 && p.denominator.len() == 0 {
            stopped = true;
        } else {
            proof {
                assert(pv.subrange(0, i as int + 1).drop_last() =~= pv.subrange(0, i as int));
                assert(pv.subrange(0, i as int + 1).last() == pv[i as int]);
                assert(analyzed_prod_trigger(pv, i as int));
            }
            let skip = has_one_var_factor_exec(p);
            if skip {
                let ghost before = kept@;
                kept.push(dup_prod(p));
                proof {
                    assert(kept@.drop_last() =~= before);
                    crate::normalize::lemma_view_pseq_push(kept@);
                }
            } else {
                let ghost before = moved@;
                moved.push(crate::flatten::negate_prod_exec(dup_prod(p)));
                proof {
                    assert(moved@.drop_last() =~= before);
                    crate::normalize::lemma_view_pseq_push(moved@);
                }
            }
            i += 1;
        }
    }
    proof {
        if stopped {
            assert(upto_empty_from(pv, 0) == pv.subrange(0, i as int)) by {
                lemma_upto_empty(pv, i as int);
            }
        } else {
            assert(i == n);
            assert(upto_empty_from(pv, 0) == pv.subrange(0, i as int)) by {
                lemma_upto_empty(pv, i as int);
            }
        }
        assert(upto_empty(pv) == pv.subrange(0, i as int));
    }
    if moved.len() == 0 {
        proof {
            crate::ast::element::lemma_view_prod_seq(moved@);
        }
        return None;
    }
    proof {
        crate::ast::element::lemma_view_prod_seq(moved@);
    }
    Some((Expression { products: moved }, Expression { products: kept }))
}

/// A helper trigger: every product of an analyzed list is itself analyzed.
pub open spec fn analyzed_prod_trigger(s: Seq<ProdV>, i: int) -> bool {
    crate::analyze::analyzed_prod(s[i])
}

/// Whether some factor of the product carries exactly one variable.
fn has_one_var_factor_exec(p: &Product) -> (r: bool)
    requires
        analyzed_eseq(view_elem_seq(p.numerator@)),
        analyzed_eseq(view_elem_seq(p.denominator@)),
    ensures
        r == has_one_var_factor(view_product(*p)),
{
    let ghost nv = view_elem_seq(p.numerator@);
    let ghost dv = view_elem_seq(p.denominator@);
    let ghost all = nv.add(dv);
    proof {
        lemma_view_elem_seq(p.numerator@);
        lemma_view_elem_seq(p.denominator@);
    }
    let n = p.numerator.len();
    let mut i: usize = 0;
    while i < n
        invariant
            n == p.numerator@.len(),
            nv == view_elem_seq(p.numerator@),
            dv == view_elem_seq(p.denominator@),
            all == nv.add(dv),
            nv.len() == n,
            forall|j: int| 0 <= j < n ==> nv[j] == view_element(p.numerator@[j]),
            analyzed_eseq(nv),
            0 <= i <= n,
            forall|j: int| 0 <= j < i ==> var_count(#[trigger] all[j]) != 1,
        decreases n - i,
    {
        proof {
            assert(analyzed_elem(nv[i as int]));
            assert(all[i as int] == nv[i as int]);
        }
        let vc = variable_count(&p.numerator[i]);
        if vc == 1 {
            proof {
                assert(view_product(*p).numerator == nv);
                assert(view_product(*p).denominator == dv);
                assert(view_product(*p).numerator.add(view_product(*p).denominator) == all);
                assert(var_count(view_product(*p).numerator.add(
                    view_product(*p).denominator,
                )[i as int]) == 1);
            }
            return true;
        }
        i += 1;
    }
    let dn = p.denominator.len();
    let mut i: usize = 0;
    while i < dn
        invariant
            n == p.numerator@.len(),
            dn == p.denominator@.len(),
            nv == view_elem_seq(p.numerator@),
            dv == view_elem_seq(p.denominator@),
            all == nv.add(dv),
            nv.len() == n,
            dv.len() == dn,
            forall|j: int| 0 <= j < dn ==> dv[j] == view_element(p.denominator@[j]),
            analyzed_eseq(dv),
            0 <= i <= dn,
            forall|j: int| 0 <= j < n + i ==> var_count(#[trigger] all[j]) != 1,
        decreases dn - i,
    {
        proof {
            assert(analyzed_elem(dv[i as int]));
            assert(all[n + i as int] == dv[i as int]);
        }
        let vc = variable_count(&p.denominator[i]);
        if vc == 1 {
            proof {
                assert(view_product(*p).numerator == nv);
                assert(view_product(*p).denominator == dv);
                assert(view_product(*p).numerator.add(view_product(*p).denominator) == all);
                assert(var_count(view_product(*p).numerator.add(
                    view_product(*p).denominator,
                )[n + i as int]) == 1);
            }
            return true;
        }
        i += 1;
    }
    proof {
        assert(view_product(*p).numerator == nv);
        assert(view_product(*p).denominator == dv);
        assert(!has_one_var_factor(view_product(*p)));
    }
    false
}

/// The cut position: the first completely empty product, or the end.
pub open spec fn upto_empty_from(s: Seq<ProdV>, i: int) -> Seq<ProdV>
    decreases s.len() - i,
{
    if i < 0 || i >= s.len() {
        Seq::empty()
    } else if s[i].numerator.len() == 0 && s[i].denominator.len() == 0 {
        Seq::empty()
    } else {
        seq![s[i]].add(upto_empty_from(s, i + 1))
    }
}

proof fn lemma_upto_empty(s: Seq<ProdV>, stop: int)
    requires
        0 <= stop <= s.len(),
        forall|j: int|
            0 <= j < stop ==> !((#[trigger] s[j]).numerator.len() == 0 && s[j].denominator.len()
                == 0),
        stop < s.len() ==> s[stop].numerator.len() == 0 && s[stop].denominator.len() == 0,
    ensures
        upto_empty_from(s, 0) == s.subrange(0, stop),
{
    lemma_upto_empty_from(s, 0, stop);
}

proof fn lemma_upto_empty_from(s: Seq<ProdV>, i: int, stop: int)
    requires
        0 <= i <= stop <= s.len(),
        forall|j: int|
            0 <= j < stop ==> !((#[trigger] s[j]).numerator.len() == 0 && s[j].denominator.len()
                == 0),
        stop < s.len() ==> s[stop].numerator.len() == 0 && s[stop].denominator.len() == 0,
    ensures
        upto_empty_from(s, i) == s.subrange(i, stop),
    decreases stop - i,
{
    if i == stop {
        if stop < s.len() {
            assert(upto_empty_from(s, i) =~= s.subrange(i, stop));
        } else {
            assert(upto_empty_from(s, i) =~= s.subrange(i, stop));
        }
    } else {
        lemma_upto_empty_from(s, i + 1, stop);
        assert(upto_empty_from(s, i) =~= s.subrange(i, stop));
    }
}

// ---------------------------------------------------------------------------
// Reading the transformation off a side.
// ---------------------------------------------------------------------------

/// A transformation with the constraints it emitted.
#[derive(Debug)]
pub struct TransformResult {
    pub transformation: EquationTransformation,
    pub constraints: Vec<String>,
}

/// What shapes a side must have for the engine to run without violating
/// its own invariants: single products may not hold factors with more than
/// one variable.
pub open spec fn side_supported(e: ElemV) -> bool {
    match e.body {
        NoeV::Expression(x) => x.products.len() == 1 ==> factors_supported(
            x.products[0].numerator,
        ) && factors_supported(x.products[0].denominator),
        _ => true,
    }
}

/// Compute the single outward inverse transformation for a side.
pub fn get_element_inverse(element: &Element) -> (r: Option<TransformResult>)
    requires
        analyzed_elem(element@),
        side_supported(element@),
    ensures
        match r {
            None => inverse_spec(element@) is None,
            Some(tr) => {
                &&& inverse_spec(element@) matches Some((t, cs))
                &&& trans_view(tr.transformation) == t
                &&& strs_view(tr.constraints@) == cs
            },
        },
{
    match &element.node_or_expression {
        NodeOrExpression::Node(node) => match node {
            Node::Function { name, arguments } => {
                let paired = inverse_table_exec(name);
                let transformation = match paired {
                    Some(p) => EquationTransformation::Function(p),
                    None => EquationTransformation::InverseFunction(name.clone()),
                };
                Some(TransformResult { transformation, constraints: Vec::new() })
            },
            _ => None,
        },
        NodeOrExpression::Expression(expression) => {
            proof {
                lemma_view_prod_seq(expression.products@);
            }
            if expression.products.len() == 0 {
                None
            } else if expression.products.len() == 1 {
                let mut constraints: Vec<String> = Vec::new();
                proof {
                    assert(element@.body->Expression_0.products[0] == view_product(
                        expression.products@[0],
                    ));
                    assert(crate::analyze::analyzed_pseq(element@.body->Expression_0.products));
                    assert(crate::analyze::analyzed_prod(
                        element@.body->Expression_0.products[0],
                    ));
                    assert(factors_supported(
                        element@.body->Expression_0.products[0].numerator,
                    ));
                    assert(factors_supported(
                        element@.body->Expression_0.products[0].denominator,
                    ));
                }
                match one_product(&expression.products[0], &mut constraints) {
                    Some((multiply, side_with_variable)) => {
                        let transformation = EquationTransformation::Multiply {
                            multiply,
                            side_with_variable,
                        };
                        proof {
                            assert(strs_view(constraints@) =~= Seq::<Seq<char>>::empty().add(
                                prod_constraints(
                                    moved_product(element@.body->Expression_0.products[0]),
                                ),
                            ));
                        }
                        Some(TransformResult { transformation, constraints })
                    },
                    None => None,
                }
            } else {
                match multiple_products(expression) {
                    Some((add, side_with_variable)) => {
                        let transformation = EquationTransformation::Add {
                            add,
                            side_with_variable,
                        };
                        proof {
                            assert(strs_view(Seq::<String>::empty()) =~= Seq::<
                                Seq<char>,
                            >::empty());
                        }
                        Some(TransformResult { transformation, constraints: Vec::new() })
                    },
                    None => None,
                }
            }
        },
    }
}

// ---------------------------------------------------------------------------
// Applying the transformation to both sides.
// ---------------------------------------------------------------------------

/// How one side is rewritten: the variable side drops to its immediate
/// sub-expression, the other side takes the inverse operation.
pub open spec fn transform_side(side: ElemV, has_var: bool, t: TransV) -> ElemV {
    match t {
        TransV::Function(name) => {
            if has_var {
                side.body->Node_0->Function_arguments[0]
            } else {
                ElemV {
                    sign: Sign::Positive,
                    body: NoeV::Node(NodeV::Function { name, arguments: seq![side] }),
                    cache: None,
                }
            }
        },
        TransV::InverseFunction(name) => {
            if has_var {
                side.body->Node_0->Function_arguments[0]
            } else {
                ElemV {
                    sign: Sign::Positive,
                    body: NoeV::Node(
                        NodeV::Power {
                            base: Box::new(
                                ElemV {
                                    sign: Sign::Positive,
                                    body: NoeV::Node(
                                        NodeV::Function { name, arguments: seq![side] },
                                    ),
                                    cache: None,
                                },
                            ),
                            power: Box::new(num_elem(Rational { num: (-1) as i64, den: 1 })),
                        },
                    ),
                    cache: None,
                }
            }
        },
        TransV::Multiply { multiply, side_with_variable } => {
            if has_var {
                ElemV {
                    sign: Sign::Positive,
                    body: NoeV::Expression(ExprV { products: seq![side_with_variable] }),
                    cache: None,
                }
            } else {
                ElemV {
                    sign: Sign::Positive,
                    body: NoeV::Expression(
                        ExprV {
                            products: seq![
                                (ProdV {
                                    numerator: multiply.numerator.push(side),
                                    denominator: multiply.denominator,
                                }),
                            ],
                        },
                    ),
                    cache: None,
                }
            }
        },
        // For the sum case the constant side is rewritten as the moved,
        // sign-inverted terms followed by the untouched side wrapped as its
        // own product; the matcher treats a sum's products as unordered, so
        // only the rendering order depends on this placement.
        TransV::Add { add, side_with_variable } => {
            if has_var {
                ElemV {
                    sign: Sign::Positive,
                    body: NoeV::Expression(ExprV { products: side_with_variable }),
                    cache: None,
                }
            } else {
                ElemV {
                    sign: Sign::Positive,
                    body: NoeV::Expression(
                        ExprV { products: add.push(crate::ast::element::wrap_product(side)) },
                    ),
                    cache: None,
                }
            }
        },
    }
}

/// One side fits: if it carries the variable and a function is peeled
/// off, it must itself be a function node with at least one argument.
pub open spec fn fit_one(side: ElemV, t: TransV) -> bool {
    if vars_of(side).len() == 1 && (t is Function || t is InverseFunction) {
        &&& side.body matches NoeV::Node(NodeV::Function { name, arguments }) && arguments.len()
            >= 1
    } else {
        true
    }
}

/// The variable side must expose the shape the transformation expects.
pub open spec fn sides_fit(sides: Seq<ElemV>, t: TransV) -> bool {
    forall|i: int| 0 <= i < sides.len() ==> fit_one(#[trigger] sides[i], t)
}

pub open spec fn all_sides_analyzed(sides: Seq<ElemV>) -> bool {
    forall|i: int| 0 <= i < sides.len() ==> analyzed_elem(#[trigger] sides[i])
}

pub open spec fn all_sides_supported(sides: Seq<ElemV>) -> bool {
    forall|i: int| 0 <= i < sides.len() ==> vars_of(#[trigger] sides[i]).len() <= 1
}

/// Rewrite every side of the equation under the chosen transformation.
pub fn transform_equation(equation: &mut Equation, inverse: EquationTransformation)
    requires
        all_sides_analyzed(old(equation)@),
        all_sides_supported(old(equation)@),
        sides_fit(old(equation)@, trans_view(inverse)),
    ensures
        final(equation)@ == Seq::new(
            old(equation)@.len(),
            |i: int|
                transform_side(
                    old(equation)@[i],
                    vars_of(old(equation)@[i]).len() == 1,
                    trans_view(inverse),
                ),
        ),
{
    let ghost sv = old(equation)@;
    let ghost tv = trans_view(inverse);
    proof {
        lemma_view_elem_seq(equation.equation_sides@);
    }
    let n = equation.equation_sides.len();
    let mut new_sides: Vec<Element> = Vec::new();
    let mut i: usize = 0;
    while i < n
        invariant
            n == equation.equation_sides@.len(),
            equation.equation_sides@ == old(equation).equation_sides@,
            sv == old(equation)@,
            tv == trans_view(inverse),
            sv.len() == n,
            forall|j: int| 0 <= j < n ==> sv[j] == view_element(equation.equation_sides@[j]),
            all_sides_analyzed(sv),
            all_sides_supported(sv),
            sides_fit(sv, tv),
            0 <= i <= n,
            new_sides@.len() == i,
            forall|j: int|
                0 <= j < i ==> view_element(#[trigger] new_sides@[j]) == transform_side(
                    sv[j],
                    vars_of(sv[j]).len() == 1,
                    tv,
                ),
        decreases n - i,
    {
        proof {
            assert(analyzed_elem(sv[i as int]));
            assert(vars_of(sv[i as int]).len() <= 1);
        }
        let side = &equation.equation_sides[i];
        let vc = variable_count(side);
        let has_var = vc == 1;
        let new_side: Element = match &inverse {
            EquationTransformation::Function(name) => {
                if has_var {
                    first_argument(side)
                } else {
                    let mut args: Vec<Element> = Vec::new();
                    args.push(side.duplicate());
                    proof {
                        assert(args@.drop_last() =~= Seq::<Element>::empty());
                        crate::normalize::lemma_view_eseq_push(args@);
                        assert(view_elem_seq(args@) =~= seq![sv[i as int]]);
                    }
                    let f = Element {
                        sign: Sign::Positive,
                        node_or_expression: NodeOrExpression::Node(
                            Node::Function { name: name.clone(), arguments: args },
                        ),
                        cache: None,
                    };
                    proof {
                        assert(view_element(f) =~~= transform_side(sv[i as int], false, tv));
                    }
                    f
                }
            },
            EquationTransformation::InverseFunction(name) => {
                if has_var {
                    first_argument(side)
                } else {
                    let mut args: Vec<Element> = Vec::new();
                    args.push(side.duplicate());
                    proof {
                        assert(args@.drop_last() =~= Seq::<Element>::empty());
                        crate::normalize::lemma_view_eseq_push(args@);
                        assert(view_elem_seq(args@) =~= seq![sv[i as int]]);
                    }
                    let func = Element {
                        sign: Sign::Positive,
                        node_or_expression: NodeOrExpression::Node(
                            Node::Function { name: name.clone(), arguments: args },
                        ),
                        cache: None,
                    };
                    let negative_one = Element {
                        sign: Sign::Positive,
                        node_or_expression: NodeOrExpression::Node(
                            Node::Number(Rational::from_integer(-1)),
                        ),
                        cache: None,
                    };
                    let ghost base_v = view_element(func);
                    let ghost pow_v = view_element(negative_one);
                    proof {
                        assert(base_v =~~= (ElemV {
                            sign: Sign::Positive,
                            body: NoeV::Node(
                                NodeV::Function {
                                    name: tv->InverseFunction_0,
                                    arguments: seq![sv[i as int]],
                                },
                            ),
                            cache: None,
                        }));
                        assert(pow_v =~~= num_elem(Rational { num: (-1) as i64, den: 1 }));
                    }
                    let f = Element {
                        sign: Sign::Positive,
                        node_or_expression: NodeOrExpression::Node(
                            Node::Power { base: Box::new(func), power: Box::new(negative_one) },
                        ),
                        cache: None,
                    };
                    proof {
                        assert(view_element(f).body == NoeV::Node(
                            NodeV::Power { base: Box::new(base_v), power: Box::new(pow_v) },
                        ));
                        assert(view_element(f) == transform_side(sv[i as int], false, tv));
                    }
                    f
                }
            },
            EquationTransformation::Multiply { multiply, side_with_variable } => {
                if has_var {
                    let mut products: Vec<Product> = Vec::new();
                    products.push(dup_prod(side_with_variable));
                    proof {
                        assert(products@.drop_last() =~= Seq::<Product>::empty());
                        crate::normalize::lemma_view_pseq_push(products@);
                        assert(view_prod_seq(products@) =~= seq![
                            view_product(*side_with_variable),
                        ]);
                    }
                    let f = Element {
                        sign: Sign::Positive,
                        node_or_expression: NodeOrExpression::Expression(Expression { products }),
                        cache: None,
                    };
                    proof {
                        assert(view_element(f) =~~= transform_side(sv[i as int], true, tv));
                    }
                    f
                } else {
                    let mut numerator = dup_eseq(&multiply.numerator);
                    let ghost numr0 = numerator@;
                    numerator.push(side.duplicate());
                    proof {
                        assert(numerator@.drop_last() =~= numr0);
                        crate::normalize::lemma_view_eseq_push(numerator@);
                        assert(view_elem_seq(numerator@) =~= view_elem_seq(
                            multiply.numerator@,
                        ).push(sv[i as int]));
                    }
                    let denominator = dup_eseq(&multiply.denominator);
                    let p = Product { numerator, denominator };
                    let ghost pv2 = view_product(p);
                    proof {
                        assert(pv2 =~~= (ProdV {
                            numerator: tv->Multiply_multiply.numerator.push(sv[i as int]),
                            denominator: tv->Multiply_multiply.denominator,
                        }));
                    }
                    let mut products: Vec<Product> = Vec::new();
                    products.push(p);
                    proof {
                        assert(products@.drop_last() =~= Seq::<Product>::empty());
                        crate::normalize::lemma_view_pseq_push(products@);
                        assert(view_prod_seq(products@) =~= seq![pv2]);
                    }
                    let f = Element {
                        sign: Sign::Positive,
                        node_or_expression: NodeOrExpression::Expression(Expression { products }),
                        cache: None,
                    };
                    proof {
                        assert(view_element(f) =~~= transform_side(sv[i as int], false, tv));
                    }
                    f
                }
            },
            EquationTransformation::Add { add, side_with_variable } => {
                if has_var {
                    let f = Element {
                        sign: Sign::Positive,
                        node_or_expression: NodeOrExpression::Expression(
                            Expression { products: dup_pseq_local(&side_with_variable.products) },
                        ),
                        cache: None,
                    };
                    proof {
                        assert(view_element(f) =~~= transform_side(sv[i as int], true, tv));
                    }
                    f
                } else {
                    let mut products = dup_pseq_local(&add.products);
                    let ghost pr0 = products@;
                    let mut wrapped_num: Vec<Element> = Vec::new();
                    wrapped_num.push(side.duplicate());
                    proof {
                        assert(wrapped_num@.drop_last() =~= Seq::<Element>::empty());
                        crate::normalize::lemma_view_eseq_push(wrapped_num@);
                        assert(view_elem_seq(wrapped_num@) =~= seq![sv[i as int]]);
                    }
                    let wp = Product { numerator: wrapped_num, denominator: Vec::new() };
                    proof {
                        assert(view_elem_seq(wp.denominator@) =~= Seq::<ElemV>::empty());
                        assert(view_product(wp) =~~= crate::ast::element::wrap_product(
                            sv[i as int],
                        ));
                    }
                    let ghost wpv = view_product(wp);
                    products.push(wp);
                    proof {
                        assert(products@.drop_last() =~= pr0);
                        crate::normalize::lemma_view_pseq_push(products@);
                        assert(view_prod_seq(products@) =~= tv->Add_add.push(wpv));
                    }
                    let f = Element {
                        sign: Sign::Positive,
                        node_or_expression: NodeOrExpression::Expression(Expression { products }),
                        cache: None,
                    };
                    proof {
                        assert(view_element(f) =~~= transform_side(sv[i as int], false, tv));
                    }
                    f
                }
            },
        };
        new_sides.push(new_side);
        i += 1;
    }
    equation.equation_sides = new_sides;
    proof {
        lemma_view_elem_seq(equation.equation_sides@);
        assert(final(equation)@ =~= Seq::new(
            sv.len(),
            |i: int| transform_side(sv[i], vars_of(sv[i]).len() == 1, tv),
        ));
    }
}

/// The sole argument of a function-shaped variable side.
fn first_argument(side: &Element) -> (r: Element)
    requires
        side@.body matches NoeV::Node(NodeV::Function { name, arguments }) && arguments.len()
            >= 1,
    ensures
        view_element(r) == side@.body->Node_0->Function_arguments[0],
{
    match &side.node_or_expression {
        NodeOrExpression::Node(Node::Function { name, arguments }) => {
            proof {
                lemma_view_elem_seq(arguments@);
            }
            arguments[0].duplicate()
        },
        _ => {
            proof {
                assert(false);
            }
            Element {
                sign: Sign::Positive,
                node_or_expression: NodeOrExpression::Node(
                    Node::Number(Rational { num: 0, den: 1 }),
                ),
                cache: None,
            }
        },
    }
}

fn dup_pseq_local(v: &Vec<Product>) -> (r: Vec<Product>)
    ensures
        view_prod_seq(r@) == view_prod_seq(v@),
        r@.len() == v@.len(),
{
    let ghost sv = view_prod_seq(v@);
    proof {
        lemma_view_prod_seq(v@);
    }
    let mut out: Vec<Product> = Vec::new();
    let n = v.len();
    let mut i: usize = 0;
    while i < n
        invariant
            n == v@.len(),
            sv == view_prod_seq(v@),
            sv.len() == n,
            forall|j: int| 0 <= j < n ==> sv[j] == view_product(v@[j]),
            0 <= i <= n,
            out@.len() == i,
            forall|j: int| 0 <= j < i ==> view_product(#[trigger] out@[j]) == sv[j],
        decreases n - i,
    {
        out.push(dup_prod(&v[i]));
        i += 1;
    }
    proof {
        lemma_view_prod_seq(out@);
        assert(view_prod_seq(out@) =~= sv);
    }
    out
}

// ---------------------------------------------------------------------------
// The full step: find the variable side, read the transformation, apply it.
// ---------------------------------------------------------------------------

/// The first side whose cache reports at least one variable, or `-1`.
pub open spec fn chosen_from(s: Seq<ElemV>, i: int) -> int
    decreases s.len() - i,
{
    if i < 0 || i >= s.len() {
        -1
    } else if vars_of(s[i]).len() >= 1 {
        i
    } else {
        chosen_from(s, i + 1)
    }
}

pub open spec fn chosen(s: Seq<ElemV>) -> int {
    chosen_from(s, 0)
}

/// What one engine step does to a two-sided equation: the rewritten sides
/// and the constraints emitted. Anything else is left untouched.
pub open spec fn apply_inverse_spec(sides: Seq<ElemV>) -> (Seq<ElemV>, Seq<Seq<char>>) {
    if sides.len() != 2 {
        (sides, Seq::empty())
    } else {
        let c = chosen(sides);
        if c == -1 {
            (sides, Seq::empty())
        } else {
            match inverse_spec(sides[c]) {
                None => (sides, Seq::empty()),
                Some((t, cs)) => (
                    Seq::new(
                        sides.len(),
                        |i: int| transform_side(sides[i], vars_of(sides[i]).len() == 1, t),
                    ),
                    cs,
                ),
            }
        }
    }
}

/// The preconditions under which the engine never aborts: sides analyzed
/// and carrying at most one variable each, lone products with supported
/// factors, and function-shaped variable sides where a function is peeled.
pub open spec fn inverse_preconditions(sides: Seq<ElemV>) -> bool {
    &&& all_sides_analyzed(sides)
    &&& sides.len() == 2 ==> all_sides_supported(sides)
    &&& (sides.len() == 2 && chosen(sides) != -1) ==> side_supported(sides[chosen(sides)])
    &&& (sides.len() == 2 && chosen(sides) != -1) ==> (inverse_spec(sides[chosen(sides)])
        matches Some((t, cs)) ==> sides_fit(sides, t))
}

/// Apply the single outward inverse transformation to the equation,
/// returning the constraints it required.
pub fn apply_inverse(equation: &mut Equation) -> (r: Vec<String>)
    requires
        inverse_preconditions(old(equation)@),
    ensures
        final(equation)@ == apply_inverse_spec(old(equation)@).0,
        strs_view(r@) == apply_inverse_spec(old(equation)@).1,
{
    let ghost sv = old(equation)@;
    proof {
        lemma_view_elem_seq(equation.equation_sides@);
    }
    if equation.equation_sides.len() != 2 {
        let r: Vec<String> = Vec::new();
        proof {
            assert(strs_view(r@) =~= Seq::<Seq<char>>::empty());
        }
        return r;
    }
    let n = equation.equation_sides.len();
    let mut idx: usize = 0;
    let mut found = false;
    while idx < n && !found
        invariant
            n == equation.equation_sides@.len(),
            equation.equation_sides@ == old(equation).equation_sides@,
            sv == old(equation)@,
            sv.len() == n,
            forall|j: int| 0 <= j < n ==> sv[j] == view_element(equation.equation_sides@[j]),
            all_sides_analyzed(sv),
            0 <= idx <= n,
            forall|j: int| 0 <= j < idx ==> vars_of(#[trigger] sv[j]).len() == 0,
            found ==> idx < n && vars_of(sv[idx as int]).len() >= 1,
        decreases n - idx, if found { 0int } else { 1int },
    {
        proof {
            assert(analyzed_elem(sv[idx as int]));
        }
        let vc = variable_count(&equation.equation_sides[idx]);
        if vc >= 1 {
            found = true;
        } else {
            idx += 1;
        }
    }
    proof {
        lemma_first_variable_side(sv, idx as int, found);
    }
    if !found {
        let r: Vec<String> = Vec::new();
        proof {
            assert(strs_view(r@) =~= Seq::<Seq<char>>::empty());
        }
        return r;
    }
    let tr = get_element_inverse(&equation.equation_sides[idx]);
    match tr {
        Some(result) => {
            transform_equation(equation, result.transformation);
            result.constraints
        },
        None => {
            let r: Vec<String> = Vec::new();
            proof {
                assert(strs_view(r@) =~= Seq::<Seq<char>>::empty());
            }
            r
        },
    }
}

/// The scan above finds exactly the first variable-bearing side.
pub proof fn lemma_first_variable_side(s: Seq<ElemV>, stop: int, found: bool)
    requires
        0 <= stop <= s.len(),
        forall|j: int| 0 <= j < stop ==> vars_of(#[trigger] s[j]).len() == 0,
        found ==> stop < s.len() && vars_of(s[stop]).len() >= 1,
        !found ==> stop == s.len(),
    ensures
        found ==> chosen(s) == stop,
        !found ==> chosen(s) == -1,
{
    lemma_chosen_from(s, 0, stop, found);
}

proof fn lemma_chosen_from(s: Seq<ElemV>, i: int, stop: int, found: bool)
    requires
        0 <= i <= stop <= s.len(),
        forall|j: int| 0 <= j < stop ==> vars_of(#[trigger] s[j]).len() == 0,
        found ==> stop < s.len() && vars_of(s[stop]).len() >= 1,
        !found ==> stop == s.len(),
    ensures
        found ==> chosen_from(s, i) == stop,
        !found ==> chosen_from(s, i) == -1,
    decreases s.len() - i,
{
    if i < s.len() && i < stop {
        lemma_chosen_from(s, i + 1, stop, found);
    }
}

} // verus!
