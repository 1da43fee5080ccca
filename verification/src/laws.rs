//! Laws of the library, stated and proved against the same specifications
//! the executable code is verified against.

use vstd::prelude::*;

use crate::ast::element::{
    expr_element, flipped, same_elem, wrap_product, ElemV, NodeV, NoeV, ProdV, Sign,
};
use crate::flatten::{flat_elem, flat_eseq, flat_products, flat_prod, splice_factors, splice_product};
use crate::normalize::{
    all_ok, emit_grouped, group_sum, is_first, items_of, materialize_ratio, norm_children,
    norm_elem, norm_eseq, norm_pseq, norm_stage, num_elem, out_upto, pos_of, rat_one, rat_prod,
    rat_side, rat_side_upto, rat_step, rat_zero, same_key, simp_side, sum_upto, RatItemV,
};
use crate::rational::Rational;
use crate::is_same::{
    check_spec, empty_names, eq_loop, find_from, find_key, ins_elem, ins_prod, list_constant,
    lemma_sort_elems_size, lemma_sort_prods_size, lemma_size_eseq_elem, lemma_size_pseq_elem,
    ms_elem, ms_eq, ms_node, ms_noe, ms_prod, record_spec, size_elem,
    size_eseq, size_node, size_noe, size_prod, size_pseq, sort_elems, sort_prods, table_consistent,
    ve_inner, ve_outer, ve_stage, vp_inner, vp_outer, vp_stage, NamesV, TableV,
};

verus! {

// ---------------------------------------------------------------------------
// Matcher reflexivity: comparing a tree against itself always succeeds.
// ---------------------------------------------------------------------------

/// A sorted copy of a list compared against itself starts with a match.
proof fn lemma_refl_elem(e: ElemV, nm: NamesV)
    ensures
        ms_elem(e, e, nm).0,
    decreases size_elem(e), 9int, 0int,
{
    lemma_refl_noe(e.body, nm);
}

proof fn lemma_refl_noe(n: NoeV, nm: NamesV)
    ensures
        ms_noe(n, n, nm).0,
    decreases size_noe(n), 8int, 0int,
{
    match n {
        NoeV::Node(x) => {
            lemma_refl_node(x, nm);
        },
        NoeV::Expression(x) => {
            lemma_refl_vp_stage(x.products, nm);
        },
    }
}

proof fn lemma_refl_node(x: NodeV, nm: NamesV)
    ensures
        ms_node(x, x, nm).0,
    decreases size_node(x), 7int, 0int,
{
    match x {
        NodeV::Number(_) => {
        },
        NodeV::Variable(_) => {
        },
        NodeV::Power { base, power } => {
            lemma_refl_elem(*base, nm);
            lemma_refl_elem(*power, ms_elem(*base, *base, nm).1);
        },
        NodeV::Modulo { lhs, rhs } => {
            lemma_refl_elem(*lhs, nm);
            lemma_refl_elem(*rhs, ms_elem(*lhs, *lhs, nm).1);
        },
        NodeV::Factorial { child } => {
            lemma_refl_elem(*child, nm);
        },
        NodeV::Function { name, arguments } => {
            lemma_refl_ve_stage(arguments, nm);
        },
    }
}

proof fn lemma_refl_prod(p: ProdV, nm: NamesV)
    ensures
        ms_prod(p, p, nm).0,
    decreases size_prod(p), 6int, 0int,
{
    lemma_refl_ve_stage(p.numerator, nm);
    lemma_refl_ve_stage(p.denominator, ve_stage(p.numerator, p.numerator, nm).1);
}

proof fn lemma_refl_ve_stage(s: Seq<ElemV>, nm: NamesV)
    ensures
        ve_stage(s, s, nm).0,
    decreases size_eseq(s) + 1, 5int, 0int,
{
    if s.len() > 0 {
        lemma_sort_elems_size(s);
        let sa = sort_elems(s);
        lemma_size_eseq_elem(sa, 0);
        lemma_refl_elem(sa[0], nm);
        let after = ms_elem(sa[0], sa[0], nm).1;
        assert(ve_inner(sa[0], sa, 0, nm) == (true, after));
        lemma_refl_ve_outer(sa, 1, after);
    }
}

/// Once a match was found, the scan stays successful to the end.
proof fn lemma_refl_ve_outer(sa: Seq<ElemV>, i: int, nm: NamesV)
    requires
        0 <= i,
        sa.len() > 0,
    ensures
        ve_outer(sa, sa, i, true, nm).0,
    decreases size_eseq(sa) + 1, 4int, sa.len() - i,
{
    if i < sa.len() {
        lemma_size_eseq_elem(sa, i);
        let x = ms_elem(sa[i], sa[0], nm);
        lemma_refl_ve_outer(sa, i + 1, x.1);
    }
}

proof fn lemma_refl_vp_stage(s: Seq<ProdV>, nm: NamesV)
    ensures
        vp_stage(s, s, nm).0,
    decreases size_pseq(s) + 1, 5int, 0int,
{
    if s.len() > 0 {
        lemma_sort_prods_size(s);
        let sa = sort_prods(s);
        lemma_size_pseq_elem(sa, 0);
        lemma_refl_prod(sa[0], nm);
        let after = ms_prod(sa[0], sa[0], nm).1;
        assert(vp_inner(sa[0], sa, 0, nm) == (true, after));
        lemma_refl_vp_outer(sa, 1, after);
    }
}

proof fn lemma_refl_vp_outer(sa: Seq<ProdV>, i: int, nm: NamesV)
    requires
        0 <= i,
        sa.len() > 0,
    ensures
        vp_outer(sa, sa, i, true, nm).0,
    decreases size_pseq(sa) + 1, 4int, sa.len() - i,
{
    if i < sa.len() {
        lemma_size_pseq_elem(sa, i);
        let x = ms_prod(sa[i], sa[0], nm);
        lemma_refl_vp_outer(sa, i + 1, x.1);
    }
}

proof fn lemma_refl_eq_loop(s: Seq<ElemV>, i: int, nm: NamesV)
    requires
        0 <= i,
    ensures
        eq_loop(s, s, i, nm).0,
    decreases size_eseq(s) + 1, 4int, s.len() - i,
{
    if i < s.len() {
        lemma_size_eseq_elem(s, i);
        lemma_refl_elem(s[i], nm);
        lemma_refl_eq_loop(s, i + 1, ms_elem(s[i], s[i], nm).1);
    }
}

/// Matcher reflexivity: comparing any equation against itself reports a
/// match, whatever evidence was already recorded.
pub proof fn matcher_reflexive(sides: Seq<ElemV>, nm: NamesV)
    ensures
        ms_eq(sides, sides, nm).0,
{
    lemma_refl_eq_loop(sides, 0, nm);
}

// ---------------------------------------------------------------------------
// Matcher reflexivity with self-mapping evidence.
//
// When every unordered list in a tree holds at most one entry, comparing
// the tree against itself records every name only against itself, so the
// consistency check accepts. (With two or more entries the scan's
// cross-comparisons may pair different names; an equation whose sides are
// the sums `c + x` and `d + x` records `x` against both `c` and `d`, and
// the check then refuses the evidence.)
// ---------------------------------------------------------------------------

/// Every unordered collection holds at most one entry.
pub open spec fn linear_elem(e: ElemV) -> bool
    decreases e,
{
    linear_noe(e.body)
}

pub open spec fn linear_noe(n: NoeV) -> bool
    decreases n,
{
    match n {
        NoeV::Node(x) => linear_node(x),
        NoeV::Expression(x) => {
            &&& x.products.len() <= 1
            &&& forall|i: int| 0 <= i < x.products.len() ==> linear_prod(#[trigger] x.products[i])
        },
    }
}

pub open spec fn linear_node(x: NodeV) -> bool
    decreases x,
{
    match x {
        NodeV::Number(_) => true,
        NodeV::Variable(_) => true,
        NodeV::Power { base, power } => linear_elem(*base) && linear_elem(*power),
        NodeV::Modulo { lhs, rhs } => linear_elem(*lhs) && linear_elem(*rhs),
        NodeV::Factorial { child } => linear_elem(*child),
        NodeV::Function { name, arguments } => {
            &&& arguments.len() <= 1
            &&& forall|i: int| 0 <= i < arguments.len() ==> linear_elem(#[trigger] arguments[i])
        },
    }
}

pub open spec fn linear_prod(p: ProdV) -> bool
    decreases p,
{
    &&& p.numerator.len() <= 1
    &&& p.denominator.len() <= 1
    &&& forall|i: int| 0 <= i < p.numerator.len() ==> linear_elem(#[trigger] p.numerator[i])
    &&& forall|i: int| 0 <= i < p.denominator.len() ==> linear_elem(#[trigger] p.denominator[i])
}

/// Every recorded candidate equals its key.
pub open spec fn table_self(m: TableV) -> bool {
    forall|i: int, j: int|
        0 <= i < m.len() && 0 <= j < (#[trigger] m[i]).1.len() ==> #[trigger] m[i].1[j] == m[i].0
}

pub open spec fn self_maps(nm: NamesV) -> bool {
    table_self(nm.variables) && table_self(nm.functions)
}

/// Recording a name against itself keeps the table self-mapping.
proof fn lemma_record_self(m: TableV, k: Seq<char>)
    requires
        table_self(m),
    ensures
        table_self(record_spec(m, k, k)),
{
    let r = record_spec(m, k, k);
    let idx = find_key(m, k);
    lemma_find_key_hit(m, k);
    if 0 <= idx < m.len() {
        assert forall|i: int, j: int|
            0 <= i < r.len() && 0 <= j < (#[trigger] r[i]).1.len() implies #[trigger] r[i].1[j]
            == r[i].0 by {
            if i == idx {
                if j < m[i].1.len() {
                    assert(m[i].1[j] == m[i].0);
                }
            }
        }
    } else {
        assert forall|i: int, j: int|
            0 <= i < r.len() && 0 <= j < (#[trigger] r[i]).1.len() implies #[trigger] r[i].1[j]
            == r[i].0 by {
            if i < m.len() {
            } else {
                assert(r[i] == (k, seq![k]));
            }
        }
    }
}

/// A found key index names an entry with that key.
proof fn lemma_find_key_hit(m: TableV, k: Seq<char>)
    ensures
        0 <= find_key(m, k) < m.len() ==> m[find_key(m, k)].0 == k,
{
    lemma_find_from_hit(m, k, 0);
}

proof fn lemma_find_from_hit(m: TableV, k: Seq<char>, i: int)
    ensures
        0 <= find_from(m, k, i) < m.len() ==> m[find_from(m, k, i)].0 == k,
    decreases m.len() - i,
{
    if 0 <= i < m.len() && m[i].0 != k {
        lemma_find_from_hit(m, k, i + 1);
    }
}

/// A self-mapping table passes the consistency check.
proof fn lemma_self_consistent(m: TableV)
    requires
        table_self(m),
    ensures
        table_consistent(m),
{
    assert forall|i: int| 0 <= i < m.len() implies list_constant((#[trigger] m[i]).1) by {
        assert forall|j: int| 0 <= j < m[i].1.len() implies #[trigger] m[i].1[j] == m[i].1[0] by {
            assert(m[i].1[j] == m[i].0);
            assert(m[i].1[0] == m[i].0);
        }
    }
}

proof fn lemma_self_elem(e: ElemV, nm: NamesV)
    requires
        linear_elem(e),
        self_maps(nm),
    ensures
        ms_elem(e, e, nm).0,
        self_maps(ms_elem(e, e, nm).1),
    decreases size_elem(e), 9int, 0int,
{
    lemma_self_noe(e.body, nm);
}

proof fn lemma_self_noe(n: NoeV, nm: NamesV)
    requires
        linear_noe(n),
        self_maps(nm),
    ensures
        ms_noe(n, n, nm).0,
        self_maps(ms_noe(n, n, nm).1),
    decreases size_noe(n), 8int, 0int,
{
    match n {
        NoeV::Node(x) => {
            lemma_self_node(x, nm);
        },
        NoeV::Expression(x) => {
            lemma_self_vp_stage(x.products, nm);
        },
    }
}

proof fn lemma_self_node(x: NodeV, nm: NamesV)
    requires
        linear_node(x),
        self_maps(nm),
    ensures
        ms_node(x, x, nm).0,
        self_maps(ms_node(x, x, nm).1),
    decreases size_node(x), 7int, 0int,
{
    match x {
        NodeV::Number(_) => {
        },
        NodeV::Variable(l) => {
            lemma_record_self(nm.variables, l);
        },
        NodeV::Power { base, power } => {
            lemma_self_elem(*base, nm);
            lemma_self_elem(*power, ms_elem(*base, *base, nm).1);
        },
        NodeV::Modulo { lhs, rhs } => {
            lemma_self_elem(*lhs, nm);
            lemma_self_elem(*rhs, ms_elem(*lhs, *lhs, nm).1);
        },
        NodeV::Factorial { child } => {
            lemma_self_elem(*child, nm);
        },
        NodeV::Function { name, arguments } => {
            lemma_self_ve_stage(arguments, nm);
            lemma_record_self(ve_stage(arguments, arguments, nm).1.functions, name);
        },
    }
}

proof fn lemma_self_prod(p: ProdV, nm: NamesV)
    requires
        linear_prod(p),
        self_maps(nm),
    ensures
        ms_prod(p, p, nm).0,
        self_maps(ms_prod(p, p, nm).1),
    decreases size_prod(p), 6int, 0int,
{
    lemma_self_ve_stage(p.numerator, nm);
    lemma_self_ve_stage(p.denominator, ve_stage(p.numerator, p.numerator, nm).1);
}

/// A singleton sorts to itself.
proof fn lemma_sort_single(s: Seq<ElemV>)
    requires
        s.len() == 1,
    ensures
        sort_elems(s) == s,
{
    assert(s.drop_last() =~= Seq::<ElemV>::empty());
    assert(sort_elems(Seq::<ElemV>::empty()) == Seq::<ElemV>::empty());
    assert(sort_elems(s) == ins_elem(sort_elems(s.drop_last()), s.last()));
    assert(ins_elem(Seq::<ElemV>::empty(), s.last()) == seq![s.last()]);
    assert(sort_elems(s) =~= s);
}

proof fn lemma_sort_single_p(s: Seq<ProdV>)
    requires
        s.len() == 1,
    ensures
        sort_prods(s) == s,
{
    assert(s.drop_last() =~= Seq::<ProdV>::empty());
    assert(sort_prods(Seq::<ProdV>::empty()) == Seq::<ProdV>::empty());
    assert(sort_prods(s) == ins_prod(sort_prods(s.drop_last()), s.last()));
    assert(ins_prod(Seq::<ProdV>::empty(), s.last()) == seq![s.last()]);
    assert(sort_prods(s) =~= s);
}

proof fn lemma_self_ve_stage(s: Seq<ElemV>, nm: NamesV)
    requires
        s.len() <= 1,
        forall|i: int| 0 <= i < s.len() ==> linear_elem(#[trigger] s[i]),
        self_maps(nm),
    ensures
        ve_stage(s, s, nm).0,
        self_maps(ve_stage(s, s, nm).1),
    decreases size_eseq(s) + 1, 5int, 0int,
{
    if s.len() == 1 {
        lemma_sort_single(s);
        lemma_size_eseq_elem(s, 0);
        lemma_self_elem(s[0], nm);
        let after = ms_elem(s[0], s[0], nm).1;
        assert(ve_inner(s[0], s, 0, nm) == (true, after));
        assert(ve_outer(s, s, 1, true, after) == (true, after));
        assert(ve_outer(s, s, 0, false, nm) == (true, after));
    }
}

proof fn lemma_self_vp_stage(s: Seq<ProdV>, nm: NamesV)
    requires
        s.len() <= 1,
        forall|i: int| 0 <= i < s.len() ==> linear_prod(#[trigger] s[i]),
        self_maps(nm),
    ensures
        vp_stage(s, s, nm).0,
        self_maps(vp_stage(s, s, nm).1),
    decreases size_pseq(s) + 1, 5int, 0int,
{
    if s.len() == 1 {
        lemma_sort_single_p(s);
        lemma_size_pseq_elem(s, 0);
        lemma_self_prod(s[0], nm);
        let after = ms_prod(s[0], s[0], nm).1;
        assert(vp_inner(s[0], s, 0, nm) == (true, after));
        assert(vp_outer(s, s, 1, true, after) == (true, after));
        assert(vp_outer(s, s, 0, false, nm) == (true, after));
    }
}

proof fn lemma_self_eq_loop(s: Seq<ElemV>, i: int, nm: NamesV)
    requires
        0 <= i,
        forall|j: int| 0 <= j < s.len() ==> linear_elem(#[trigger] s[j]),
        self_maps(nm),
    ensures
        eq_loop(s, s, i, nm).0,
        self_maps(eq_loop(s, s, i, nm).1),
    decreases size_eseq(s) + 1, 4int, s.len() - i,
{
    if i < s.len() {
        lemma_size_eseq_elem(s, i);
        lemma_self_elem(s[i], nm);
        lemma_self_eq_loop(s, i + 1, ms_elem(s[i], s[i], nm).1);
    }
}

/// Matcher reflexivity with a consistent renaming: when every unordered
/// list of the equation holds at most one entry, comparing it against
/// itself succeeds, maps every name only to itself, and passes the
/// consistency check.
pub proof fn matcher_reflexive_consistent(sides: Seq<ElemV>)
    requires
        forall|j: int| 0 <= j < sides.len() ==> linear_elem(#[trigger] sides[j]),
    ensures
        ms_eq(sides, sides, empty_names()).0,
        self_maps(ms_eq(sides, sides, empty_names()).1),
        check_spec(ms_eq(sides, sides, empty_names()).1),
{
    lemma_self_eq_loop(sides, 0, empty_names());
    let nm = ms_eq(sides, sides, empty_names()).1;
    lemma_self_consistent(nm.variables);
    lemma_self_consistent(nm.functions);
}

// ---------------------------------------------------------------------------
// Zero-collapse: a variable minus itself normalizes to the number zero.
// ---------------------------------------------------------------------------

/// A positive, unanalyzed variable element.
pub open spec fn var_elem(name: Seq<char>) -> ElemV {
    ElemV { sign: Sign::Positive, body: NoeV::Node(NodeV::Variable(name)), cache: None }
}

/// One normalization round of a side: flatten, then simplify.
pub open spec fn step_side(e: ElemV) -> ElemV {
    simp_side(flat_elem(e))
}

/// The shape `x - x` as the constructors build it.
pub open spec fn sub_self(name: Seq<char>) -> ElemV {
    expr_element(
        seq![wrap_product(var_elem(name)), wrap_product(flipped(var_elem(name)))],
    )
}

/// Flattening a sum of plain signed variables leaves it unchanged apart
/// from clearing caches (which are already clear here).
proof fn lemma_flat_plain_var(name: Seq<char>)
    ensures
        flat_elem(var_elem(name)) == var_elem(name),
        flat_elem(flipped(var_elem(name))) == flipped(var_elem(name)),
{
    assert(flat_elem(var_elem(name)) =~= var_elem(name));
    assert(flat_elem(flipped(var_elem(name))) =~= flipped(var_elem(name)));
}

/// A product wrapping one non-expression element flattens to itself.
proof fn lemma_flat_wrap(e: ElemV)
    requires
        e.body is Node,
        flat_elem(e) == e,
    ensures
        flat_prod(wrap_product(e)) == wrap_product(e),
        splice_product(wrap_product(e)) == seq![wrap_product(e)],
{
    let p = wrap_product(e);
    assert(p.numerator =~= seq![e]);
    assert(seq![e].drop_last() =~= Seq::<ElemV>::empty());
    assert(flat_eseq(seq![e]) == flat_eseq(Seq::<ElemV>::empty()).push(flat_elem(e)));
    assert(flat_eseq(Seq::<ElemV>::empty()) == Seq::<ElemV>::empty());
    assert(flat_eseq(seq![e]) =~= seq![e]);
    assert(flat_eseq(p.denominator) == Seq::<ElemV>::empty());
    assert(splice_factors(Seq::<ElemV>::empty()) == (Seq::<ElemV>::empty(), Seq::<
        ElemV,
    >::empty()));
    splice_one_unfold(e);
    assert(seq![e].drop_last() =~= Seq::<ElemV>::empty());
    assert(splice_factors(seq![e]).0 =~= seq![e]);
    assert(splice_factors(seq![e]).1 =~= Seq::<ElemV>::empty());
    assert(flat_prod(p).numerator =~= seq![e]);
    assert(flat_prod(p).denominator =~= Seq::<ElemV>::empty());
    assert(flat_prod(p) =~= p);
    assert(!crate::flatten::is_add_wrapper(p));
    assert(splice_product(p) == seq![p]);
}

/// A non-expression element adds only itself when spliced.
proof fn splice_one_unfold(e: ElemV)
    requires
        e.body is Node,
    ensures
        crate::flatten::splice_one(e) == (seq![e], Seq::<ElemV>::empty()),
{
    assert(!crate::flatten::is_mult_wrapper(e));
}

/// Arithmetic facts about the constant rationals the laws meet.
proof fn lemma_rat_consts()
    ensures
        Rational::mul_spec(rat_one(), rat_one()) == Some(rat_one()),
        Rational::invert_spec(rat_one()) == Some(rat_one()),
        Rational::mul_spec(Rational { num: (-1) as i64, den: 1 }, rat_one()) == Some(
            Rational { num: (-1) as i64, den: 1 },
        ),
        Rational::mul_spec(rat_one(), Rational { num: (-1) as i64, den: 1 }) == Some(
            Rational { num: (-1) as i64, den: 1 },
        ),
        Rational::add_spec(rat_zero(), rat_one()) == Some(rat_one()),
        Rational::add_spec(rat_one(), Rational { num: (-1) as i64, den: 1 }) == Some(rat_zero()),
        Rational::mul_spec(rat_one(), rat_zero()) == Some(rat_zero()),
        Rational::add_spec(rat_zero(), rat_zero()) == Some(rat_zero()),
        rat_one().is_one_spec(),
        rat_zero().is_zero_spec(),
        !rat_one().is_zero_spec(),
{
    let one = rat_one();
    let zero = rat_zero();
    let m1 = Rational { num: (-1) as i64, den: 1 };
    assert(1int * 1int == 1int) by (nonlinear_arith);
    assert((-1int) * 1int == -1int) by (nonlinear_arith);
    assert(1int * (-1int) == -1int) by (nonlinear_arith);
    assert(0int * 1int == 0int) by (nonlinear_arith);
    assert(Rational::mul_spec(one, one) =~~= Some(one));
    assert(Rational::invert_spec(one) =~~= Some(one));
    assert(Rational::mul_spec(m1, one) =~~= Some(m1));
    assert(Rational::mul_spec(one, m1) =~~= Some(m1));
    assert(Rational::add_spec(zero, one) =~~= Some(one));
    assert(Rational::add_spec(one, m1) =~~= Some(zero));
    assert(1int * 0int == 0int) by (nonlinear_arith);
    assert(0int * 0int == 0int) by (nonlinear_arith);
    assert(Rational::mul_spec(one, zero) =~~= Some(zero));
    assert(Rational::add_spec(zero, zero) =~~= Some(zero));
}

/// Rationalizing a product holding one plain variable gives coefficient
/// one (or minus one, when the variable is negative) and the positive
/// variable as the only factor.
proof fn lemma_rat_var(name: Seq<char>)
    ensures
        rat_prod(wrap_product(var_elem(name))) == (RatItemV::Ratio {
            c: rat_one(),
            num: seq![var_elem(name)],
            den: Seq::<ElemV>::empty(),
        }),
        rat_prod(wrap_product(flipped(var_elem(name)))) == (RatItemV::Ratio {
            c: Rational { num: (-1) as i64, den: 1 },
            num: seq![var_elem(name)],
            den: Seq::<ElemV>::empty(),
        }),
{
    let x = var_elem(name);
    let nx = flipped(x);
    lemma_rat_consts();
    // positive variable
    let p = wrap_product(x);
    assert(rat_side_upto(seq![x], 0) == Some((rat_one(), Seq::<ElemV>::empty())));
    assert(rat_step(rat_one(), Seq::<ElemV>::empty(), x) == Some(
        (rat_one(), seq![pos_of(x)]),
    ));
    assert(pos_of(x) =~~= x);
    assert(rat_side(seq![x]) == Some((rat_one(), seq![x])));
    assert(rat_side(Seq::<ElemV>::empty()) == Some((rat_one(), Seq::<ElemV>::empty())));
    assert(!rat_one().is_zero_spec());
    assert(Rational::invert_spec(rat_one()) == Some(rat_one()));
    assert(Rational::mul_spec(rat_one(), rat_one()) == Some(rat_one()));
    assert(p.numerator =~= seq![x]);
    assert(p.denominator =~= Seq::<ElemV>::empty());
    assert(rat_prod(p) =~~= (RatItemV::Ratio {
        c: rat_one(),
        num: seq![x],
        den: Seq::<ElemV>::empty(),
    }));
    // negative variable
    let q = wrap_product(nx);
    let m1 = Rational { num: (-1) as i64, den: 1 };
    assert(rat_step(rat_one(), Seq::<ElemV>::empty(), nx) == Some((m1, seq![pos_of(nx)])));
    assert(pos_of(nx) =~~= x);
    assert(rat_side_upto(seq![nx], 0) == Some((rat_one(), Seq::<ElemV>::empty())));
    assert(seq![nx][0] == nx);
    assert(Seq::<ElemV>::empty().push(pos_of(nx)) =~= seq![x]);
    assert(rat_side(seq![nx]) == Some((m1, seq![x])));
    assert(Rational::mul_spec(m1, rat_one()) == Some(m1));
    assert(q.numerator =~= seq![nx]);
    assert(q.denominator =~= Seq::<ElemV>::empty());
    assert(rat_prod(q) =~~= (RatItemV::Ratio { c: m1, num: seq![x], den: Seq::<ElemV>::empty() }));
}

/// Zero-collapse: `x - x` normalizes to the number zero in one round.
pub proof fn zero_collapse(name: Seq<char>)
    ensures
        step_side(sub_self(name)) == num_elem(rat_zero()),
{
    let x = var_elem(name);
    let nx = flipped(x);
    let e = sub_self(name);
    let ps = seq![wrap_product(x), wrap_product(nx)];
    // flattening leaves the two plain products in place
    lemma_flat_plain_var(name);
    lemma_flat_wrap(x);
    lemma_flat_wrap(nx);
    assert(ps.drop_last() =~= seq![wrap_product(x)]);
    assert(seq![wrap_product(x)].drop_last() =~= Seq::<ProdV>::empty());
    assert(flat_products(Seq::<ProdV>::empty()) == Seq::<ProdV>::empty());
    assert(flat_products(seq![wrap_product(x)]) =~= seq![wrap_product(x)]);
    assert(flat_products(ps) =~= ps);
    assert(flat_elem(e) =~~= e);
    // the children are already normalized
    assert(norm_elem(x) =~~= x);
    assert(norm_elem(nx) =~~= nx);
    assert(seq![x].drop_last() =~= Seq::<ElemV>::empty());
    assert(seq![nx].drop_last() =~= Seq::<ElemV>::empty());
    assert(norm_eseq(Seq::<ElemV>::empty()) == Seq::<ElemV>::empty());
    assert(norm_eseq(seq![x]) =~= seq![x]);
    assert(norm_eseq(seq![nx]) =~= seq![nx]);
    assert(crate::normalize::norm_prod(wrap_product(x)) =~~= wrap_product(x));
    assert(crate::normalize::norm_prod(wrap_product(nx)) =~~= wrap_product(nx));
    assert(norm_children(Seq::<ProdV>::empty()) == Seq::<ProdV>::empty());
    assert(norm_children(seq![wrap_product(x)]) =~= seq![wrap_product(x)]);
    assert(norm_children(ps) =~= ps);
    // rationalization gives coefficients one and minus one over factor x
    lemma_rat_var(name);
    let m1 = Rational { num: (-1) as i64, den: 1 };
    let r0 = RatItemV::Ratio { c: rat_one(), num: seq![x], den: Seq::<ElemV>::empty() };
    let r1 = RatItemV::Ratio { c: m1, num: seq![x], den: Seq::<ElemV>::empty() };
    let items = items_of(ps);
    assert(items.len() == 2);
    assert(items[0] == r0);
    assert(items[1] == r1);
    // both carry the same key, so they combine to coefficient zero
    assert(same_elem(x, x));
    assert(crate::ast::element::same_eseq(seq![x], seq![x]));
    assert(crate::ast::element::same_eseq(Seq::<ElemV>::empty(), Seq::<ElemV>::empty()));
    assert(same_key(items[0], items[0]));
    assert(same_key(items[1], items[0]));
    assert(is_first(items, 0));
    assert(!is_first(items, 1)) by {
        assert(same_key(items[0], items[1]));
    }
    lemma_rat_consts();
    assert(sum_upto(items, 0, 0) == Some(rat_zero()));
    assert(Rational::add_spec(rat_zero(), rat_one()) == Some(rat_one()));
    assert(sum_upto(items, 0, 1) == Some(rat_one()));
    assert(Rational::add_spec(rat_one(), m1) == Some(rat_zero()));
    assert(sum_upto(items, 0, 2) == Some(rat_zero()));
    assert(group_sum(items, 0) == Some(rat_zero()));
    assert(all_ok(items)) by {
        assert forall|i: int|
            0 <= i < items.len() && is_first(items, i) implies (#[trigger] group_sum(
            items,
            i,
        )) is Some by {
            assert(i == 0);
        }
    }
    // the zero-coefficient group vanishes, leaving no products
    assert(materialize_ratio(rat_zero(), seq![x], Seq::<ElemV>::empty()) == Seq::<
        ProdV,
    >::empty());
    assert(emit_grouped(items, 0) == Seq::<ProdV>::empty());
    assert(emit_grouped(items, 1) == Seq::<ProdV>::empty());
    assert(out_upto(items, 0, true) == Seq::<ProdV>::empty());
    assert(out_upto(items, 1, true) =~= Seq::<ProdV>::empty());
    assert(out_upto(items, 2, true) =~= Seq::<ProdV>::empty());
    assert(norm_stage(ps) =~= Seq::<ProdV>::empty());
    assert(norm_pseq(ps) =~= Seq::<ProdV>::empty());
    assert(norm_elem(e).body->Expression_0.products.len() == 0);
    assert(simp_side(flat_elem(e)) == num_elem(rat_zero()));
}

// ---------------------------------------------------------------------------
// Zero and one identities: adding zero, multiplying by one, and dividing
// by one all normalize to the bare operand.
// ---------------------------------------------------------------------------

/// The shape `x + 0` as the constructors build it.
pub open spec fn add_zero(name: Seq<char>) -> ElemV {
    expr_element(
        seq![wrap_product(var_elem(name)), wrap_product(num_elem(rat_zero()))],
    )
}

/// The shape `x * 1` as the constructors build it.
pub open spec fn mul_one(name: Seq<char>) -> ElemV {
    expr_element(
        seq![
            (ProdV {
                numerator: seq![var_elem(name), num_elem(rat_one())],
                denominator: Seq::<ElemV>::empty(),
            }),
        ],
    )
}

/// The shape `x / 1` as the constructors build it.
pub open spec fn div_one(name: Seq<char>) -> ElemV {
    expr_element(
        seq![
            (ProdV { numerator: seq![var_elem(name)], denominator: seq![num_elem(rat_one())] }),
        ],
    )
}

/// A lone-product expression over the bare variable simplifies to it after
/// one more flatten round.
proof fn lemma_unwrap_var(name: Seq<char>)
    ensures
        step_side(expr_element(seq![wrap_product(var_elem(name))])) == var_elem(name),
        step_side(var_elem(name)) == var_elem(name),
{
    let x = var_elem(name);
    lemma_flat_plain_var(name);
    lemma_flat_wrap(x);
    let ps = seq![wrap_product(x)];
    assert(ps.drop_last() =~= Seq::<ProdV>::empty());
    assert(flat_products(Seq::<ProdV>::empty()) == Seq::<ProdV>::empty());
    assert(flat_products(ps) =~= ps);
    assert(flat_elem(expr_element(ps)) =~~= x);
    assert(norm_elem(x) =~~= x);
    assert(step_side(expr_element(ps)) == x);
    assert(flat_elem(x) == x);
    assert(step_side(x) == x);
}

/// Normalizing either shape yields the lone-product expression over the
/// bare variable after one round.
proof fn lemma_identity_round(name: Seq<char>)
    ensures
        step_side(add_zero(name)) == expr_element(seq![wrap_product(var_elem(name))]),
        step_side(mul_one(name)) == expr_element(seq![wrap_product(var_elem(name))]),
        step_side(div_one(name)) == expr_element(seq![wrap_product(var_elem(name))]),
{
    let x = var_elem(name);
    let zero = num_elem(rat_zero());
    let one = num_elem(rat_one());
    lemma_rat_consts();
    lemma_flat_plain_var(name);
    lemma_flat_wrap(x);
    assert(flat_elem(zero) =~= zero);
    assert(flat_elem(one) =~= one);
    lemma_flat_wrap(zero);
    // ---- x + 0 ----
    let psa = seq![wrap_product(x), wrap_product(zero)];
    assert(psa.drop_last() =~= seq![wrap_product(x)]);
    assert(seq![wrap_product(x)].drop_last() =~= Seq::<ProdV>::empty());
    assert(flat_products(Seq::<ProdV>::empty()) == Seq::<ProdV>::empty());
    assert(flat_products(seq![wrap_product(x)]) =~= seq![wrap_product(x)]);
    assert(flat_products(psa) =~= psa);
    assert(flat_elem(add_zero(name)) =~~= add_zero(name));
    assert(norm_elem(x) =~~= x);
    assert(norm_elem(zero) =~~= zero);
    assert(norm_elem(one) =~~= one);
    assert(seq![x].drop_last() =~= Seq::<ElemV>::empty());
    assert(seq![zero].drop_last() =~= Seq::<ElemV>::empty());
    assert(norm_eseq(Seq::<ElemV>::empty()) == Seq::<ElemV>::empty());
    assert(norm_eseq(seq![x]) =~= seq![x]);
    assert(norm_eseq(seq![zero]) =~= seq![zero]);
    assert(crate::normalize::norm_prod(wrap_product(x)) =~~= wrap_product(x));
    assert(crate::normalize::norm_prod(wrap_product(zero)) =~~= wrap_product(zero));
    assert(norm_children(Seq::<ProdV>::empty()) == Seq::<ProdV>::empty());
    assert(norm_children(seq![wrap_product(x)]) =~= seq![wrap_product(x)]);
    assert(norm_children(psa) =~= psa);
    lemma_rat_var(name);
    // rationalize the zero product
    assert(rat_side_upto(seq![zero], 0) == Some((rat_one(), Seq::<ElemV>::empty())));
    assert(seq![zero][0] == zero);
    assert(rat_step(rat_one(), Seq::<ElemV>::empty(), zero) == Some(
        (rat_zero(), Seq::<ElemV>::empty()),
    ));
    assert(rat_side(seq![zero]) == Some((rat_zero(), Seq::<ElemV>::empty())));
    assert(rat_side(Seq::<ElemV>::empty()) == Some((rat_one(), Seq::<ElemV>::empty())));
    assert(wrap_product(zero).numerator =~= seq![zero]);
    assert(wrap_product(zero).denominator =~= Seq::<ElemV>::empty());
    let rz = RatItemV::Ratio { c: rat_zero(), num: Seq::<ElemV>::empty(), den: Seq::<
        ElemV,
    >::empty() };
    assert(rat_prod(wrap_product(zero)) =~~= rz);
    let r0 = RatItemV::Ratio { c: rat_one(), num: seq![x], den: Seq::<ElemV>::empty() };
    let items = items_of(psa);
    assert(items.len() == 2);
    assert(items[0] == r0);
    assert(items[1] == rz);
    assert(same_elem(x, x));
    assert(crate::ast::element::same_eseq(seq![x], seq![x]));
    assert(crate::ast::element::same_eseq(Seq::<ElemV>::empty(), Seq::<ElemV>::empty()));
    assert(!crate::ast::element::same_eseq(seq![x], Seq::<ElemV>::empty()));
    assert(!crate::ast::element::same_eseq(Seq::<ElemV>::empty(), seq![x]));
    assert(same_key(items[0], items[0]));
    assert(same_key(items[1], items[1]));
    assert(!same_key(items[0], items[1]));
    assert(!same_key(items[1], items[0]));
    assert(is_first(items, 0));
    assert(is_first(items, 1));
    assert(sum_upto(items, 0, 0) == Some(rat_zero()));
    assert(sum_upto(items, 0, 1) == Some(rat_one()));
    assert(sum_upto(items, 0, 2) == Some(rat_one()));
    assert(group_sum(items, 0) == Some(rat_one()));
    assert(sum_upto(items, 1, 0) == Some(rat_zero()));
    assert(sum_upto(items, 1, 1) == Some(rat_zero()));
    assert(sum_upto(items, 1, 2) == Some(rat_zero()));
    assert(group_sum(items, 1) == Some(rat_zero()));
    assert(all_ok(items)) by {
        assert forall|i: int|
            0 <= i < items.len() && is_first(items, i) implies (#[trigger] group_sum(
            items,
            i,
        )) is Some by {
            if i == 0 {
            } else {
                assert(i == 1);
            }
        }
    }
    assert(materialize_ratio(rat_one(), seq![x], Seq::<ElemV>::empty()) == seq![
        wrap_product(x),
    ]) by {
        assert((ProdV { numerator: seq![x], denominator: Seq::<ElemV>::empty() }) =~~=
            wrap_product(x));
    }
    assert(emit_grouped(items, 0) == seq![wrap_product(x)]);
    assert(emit_grouped(items, 1) == Seq::<ProdV>::empty());
    assert(out_upto(items, 0, true) == Seq::<ProdV>::empty());
    assert(out_upto(items, 1, true) =~= seq![wrap_product(x)]);
    assert(out_upto(items, 2, true) =~= seq![wrap_product(x)]);
    assert(norm_stage(psa) =~= seq![wrap_product(x)]);
    assert(norm_pseq(psa) =~= seq![wrap_product(x)]);
    assert(norm_elem(add_zero(name)) =~~= expr_element(seq![wrap_product(x)]));
    assert(simp_side(flat_elem(add_zero(name))) == expr_element(seq![wrap_product(x)]));
    // ---- x * 1 ----
    let pm = ProdV { numerator: seq![x, one], denominator: Seq::<ElemV>::empty() };
    let psm = seq![pm];
    assert(seq![x, one].drop_last() =~= seq![x]);
    assert(flat_eseq(seq![x]) =~= seq![x]);
    assert(flat_eseq(seq![x, one]) =~= seq![x, one]);
    assert(flat_eseq(Seq::<ElemV>::empty()) == Seq::<ElemV>::empty());
    splice_one_unfold(x);
    splice_one_unfold(one);
    assert(splice_factors(Seq::<ElemV>::empty()) == (Seq::<ElemV>::empty(), Seq::<
        ElemV,
    >::empty()));
    assert(splice_factors(seq![x]).0 =~= seq![x]);
    assert(splice_factors(seq![x]).1 =~= Seq::<ElemV>::empty());
    assert(splice_factors(seq![x, one]).0 =~= seq![x, one]);
    assert(splice_factors(seq![x, one]).1 =~= Seq::<ElemV>::empty());
    assert(flat_prod(pm).numerator =~= seq![x, one]);
    assert(flat_prod(pm).denominator =~= Seq::<ElemV>::empty());
    assert(flat_prod(pm) =~~= pm);
    assert(!crate::flatten::is_add_wrapper(pm));
    assert(splice_product(pm) == seq![pm]);
    assert(psm.drop_last() =~= Seq::<ProdV>::empty());
    assert(flat_products(psm) =~= psm);
    assert(flat_elem(mul_one(name)) =~~= mul_one(name));
    assert(norm_eseq(seq![x, one]) =~= seq![x, one]);
    assert(crate::normalize::norm_prod(pm) =~~= pm);
    assert(norm_children(psm) =~= psm);
    assert(rat_side_upto(seq![x, one], 0) == Some((rat_one(), Seq::<ElemV>::empty())));
    assert(seq![x, one][0] == x);
    assert(seq![x, one][1] == one);
    assert(rat_step(rat_one(), Seq::<ElemV>::empty(), x) == Some((rat_one(), seq![pos_of(x)])));
    assert(pos_of(x) =~~= x);
    assert(rat_side_upto(seq![x, one], 1) == Some((rat_one(), seq![x])));
    assert(rat_step(rat_one(), seq![x], one) == Some((rat_one(), seq![x])));
    assert(rat_side(seq![x, one]) == Some((rat_one(), seq![x])));
    let itm = items_of(psm);
    assert(itm.len() == 1);
    assert(rat_prod(pm) =~~= r0);
    assert(itm[0] == r0);
    assert(same_key(itm[0], itm[0]));
    assert(is_first(itm, 0));
    assert(sum_upto(itm, 0, 0) == Some(rat_zero()));
    assert(sum_upto(itm, 0, 1) == Some(rat_one()));
    assert(group_sum(itm, 0) == Some(rat_one()));
    assert(all_ok(itm)) by {
        assert forall|i: int|
            0 <= i < itm.len() && is_first(itm, i) implies (#[trigger] group_sum(
            itm,
            i,
        )) is Some by {
            assert(i == 0);
        }
    }
    assert(emit_grouped(itm, 0) == seq![wrap_product(x)]);
    assert(out_upto(itm, 0, true) == Seq::<ProdV>::empty());
    assert(out_upto(itm, 1, true) =~= seq![wrap_product(x)]);
    assert(norm_stage(psm) =~= seq![wrap_product(x)]);
    assert(norm_pseq(psm) =~= seq![wrap_product(x)]);
    assert(norm_elem(mul_one(name)) =~~= expr_element(seq![wrap_product(x)]));
    assert(simp_side(flat_elem(mul_one(name))) == expr_element(seq![wrap_product(x)]));
    // ---- x / 1 ----
    let pd = ProdV { numerator: seq![x], denominator: seq![one] };
    let psd = seq![pd];
    assert(seq![one].drop_last() =~= Seq::<ElemV>::empty());
    assert(flat_eseq(seq![one]) =~= seq![one]);
    assert(splice_factors(seq![one]).0 =~= seq![one]);
    assert(splice_factors(seq![one]).1 =~= Seq::<ElemV>::empty());
    assert(flat_prod(pd).numerator =~= seq![x]);
    assert(flat_prod(pd).denominator =~= seq![one]);
    assert(flat_prod(pd) =~~= pd);
    assert(!crate::flatten::is_add_wrapper(pd));
    assert(splice_product(pd) == seq![pd]);
    assert(psd.drop_last() =~= Seq::<ProdV>::empty());
    assert(flat_products(psd) =~= psd);
    assert(flat_elem(div_one(name)) =~~= div_one(name));
    assert(norm_eseq(seq![one]) =~= seq![one]);
    assert(crate::normalize::norm_prod(pd) =~~= pd);
    assert(norm_children(psd) =~= psd);
    assert(rat_side(seq![x]) == Some((rat_one(), seq![x])));
    assert(rat_side_upto(seq![one], 0) == Some((rat_one(), Seq::<ElemV>::empty())));
    assert(seq![one][0] == one);
    assert(rat_step(rat_one(), Seq::<ElemV>::empty(), one) == Some(
        (rat_one(), Seq::<ElemV>::empty()),
    ));
    assert(rat_side(seq![one]) == Some((rat_one(), Seq::<ElemV>::empty())));
    let itd = items_of(psd);
    assert(itd.len() == 1);
    assert(rat_prod(pd) =~~= r0);
    assert(itd[0] == r0);
    assert(is_first(itd, 0));
    assert(sum_upto(itd, 0, 0) == Some(rat_zero()));
    assert(sum_upto(itd, 0, 1) == Some(rat_one()));
    assert(group_sum(itd, 0) == Some(rat_one()));
    assert(all_ok(itd)) by {
        assert forall|i: int|
            0 <= i < itd.len() && is_first(itd, i) implies (#[trigger] group_sum(
            itd,
            i,
        )) is Some by {
            assert(i == 0);
        }
    }
    assert(emit_grouped(itd, 0) == seq![wrap_product(x)]);
    assert(out_upto(itd, 0, true) == Seq::<ProdV>::empty());
    assert(out_upto(itd, 1, true) =~= seq![wrap_product(x)]);
    assert(norm_stage(psd) =~= seq![wrap_product(x)]);
    assert(norm_pseq(psd) =~= seq![wrap_product(x)]);
    assert(norm_elem(div_one(name)) =~~= expr_element(seq![wrap_product(x)]));
    assert(simp_side(flat_elem(div_one(name))) == expr_element(seq![wrap_product(x)]));
}

/// Zero/one identities: `x + 0`, `x * 1` and `x / 1` all normalize, within
/// two rounds, to exactly the bare variable, which is itself a fixpoint;
/// the matcher then accepts the two results with a consistent renaming
/// mapping the variable only to itself.
pub proof fn zero_one_identities(name: Seq<char>)
    ensures
        step_side(step_side(add_zero(name))) == var_elem(name),
        step_side(step_side(mul_one(name))) == var_elem(name),
        step_side(step_side(div_one(name))) == var_elem(name),
        step_side(var_elem(name)) == var_elem(name),
        ms_eq(seq![var_elem(name)], seq![var_elem(name)], empty_names()).0,
        check_spec(ms_eq(seq![var_elem(name)], seq![var_elem(name)], empty_names()).1),
{
    lemma_identity_round(name);
    lemma_unwrap_var(name);
    assert(linear_elem(var_elem(name)));
    assert forall|j: int|
        0 <= j < seq![var_elem(name)].len() implies linear_elem(
        #[trigger] seq![var_elem(name)][j],
    ) by {
        assert(seq![var_elem(name)][j] == var_elem(name));
    }
    matcher_reflexive_consistent(seq![var_elem(name)]);
}

// ---------------------------------------------------------------------------
// Idempotence of normalization, in part.
//
// A state that one flatten-and-simplify round leaves exactly unchanged is
// stable under the whole normalization loop: normalizing again returns the
// very same equation, which the matcher accepts against itself. This does
// not cover every reachable state: the loop may also exit through a merely
// matcher-equal pair, and on sides whose unordered lists hold two or more
// entries the recorded renaming can be inconsistent, as with the sum of
// `u * x` and `v * x`.
// ---------------------------------------------------------------------------

pub proof fn normalize_idempotent_on_fixpoints(sides: Seq<ElemV>, fuel: nat)
    requires
        crate::solve::step_sides(sides) == sides,
        forall|j: int| 0 <= j < sides.len() ==> linear_elem(#[trigger] sides[j]),
        fuel >= 1,
    ensures
        crate::solve::norm_fix(sides, sides, fuel) == Some(sides),
{
    matcher_reflexive_consistent(sides);
    assert(crate::solve::norm_fix(sides, sides, fuel) == Some(sides));
}

} // verus!
