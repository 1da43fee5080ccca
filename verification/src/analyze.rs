//! The analysis pass.
//!
//! Every transformation assumes each element carries a cache describing the
//! variables and function names occurring beneath it and whether the subtree
//! is purely numeric. `analyze` fills those caches bottom-up; it must be run
//! again after any structural edit, because a stale cache is meaningless.

use vstd::prelude::*;

use crate::ast::element::{
    lemma_view_elem_seq, names_set, view_elem_seq, view_element, view_node, view_product,
    view_prod_seq, CacheV, ElemV, Element, ElementCache, Expression, ExprV, Node,
    NodeOrExpression, NodeV, NoeV, ProdV, Product,
};

verus! {

// ---------------------------------------------------------------------------
// What occurs beneath an element, on the model.
// ---------------------------------------------------------------------------

/// The variable names occurring in `e` or anywhere beneath it.
pub open spec fn vars_of(e: ElemV) -> Set<Seq<char>>
    decreases e,
{
    vars_of_noe(e.body)
}

pub open spec fn vars_of_noe(n: NoeV) -> Set<Seq<char>>
    decreases n,
{
    match n {
        NoeV::Node(node) => vars_of_node(node),
        NoeV::Expression(x) => vars_of_pseq(x.products),
    }
}

pub open spec fn vars_of_node(n: NodeV) -> Set<Seq<char>>
    decreases n,
{
    match n {
        NodeV::Number(_) => Set::empty(),
        NodeV::Variable(name) => Set::empty().insert(name),
        NodeV::Power { base, power } => vars_of(*base).union(vars_of(*power)),
        NodeV::Modulo { lhs, rhs } => vars_of(*lhs).union(vars_of(*rhs)),
        NodeV::Factorial { child } => vars_of(*child),
        NodeV::Function { name, arguments } => vars_of_eseq(arguments),
    }
}

pub open spec fn vars_of_eseq(s: Seq<ElemV>) -> Set<Seq<char>>
    decreases s,
{
    if s.len() == 0 {
        Set::empty()
    } else {
        vars_of_eseq(s.drop_last()).union(vars_of(s.last()))
    }
}

pub open spec fn vars_of_prod(p: ProdV) -> Set<Seq<char>>
    decreases p,
{
    vars_of_eseq(p.numerator).union(vars_of_eseq(p.denominator))
}

pub open spec fn vars_of_pseq(s: Seq<ProdV>) -> Set<Seq<char>>
    decreases s,
{
    if s.len() == 0 {
        Set::empty()
    } else {
        vars_of_pseq(s.drop_last()).union(vars_of_prod(s.last()))
    }
}

/// The function names occurring in `e` or anywhere beneath it.
pub open spec fn funcs_of(e: ElemV) -> Set<Seq<char>>
    decreases e,
{
    funcs_of_noe(e.body)
}

pub open spec fn funcs_of_noe(n: NoeV) -> Set<Seq<char>>
    decreases n,
{
    match n {
        NoeV::Node(node) => funcs_of_node(node),
        NoeV::Expression(x) => funcs_of_pseq(x.products),
    }
}

pub open spec fn funcs_of_node(n: NodeV) -> Set<Seq<char>>
    decreases n,
{
    match n {
        NodeV::Number(_) => Set::empty(),
        NodeV::Variable(_) => Set::empty(),
        NodeV::Power { base, power } => funcs_of(*base).union(funcs_of(*power)),
        NodeV::Modulo { lhs, rhs } => funcs_of(*lhs).union(funcs_of(*rhs)),
        NodeV::Factorial { child } => funcs_of(*child),
        NodeV::Function { name, arguments } => funcs_of_eseq(arguments).insert(name),
    }
}

pub open spec fn funcs_of_eseq(s: Seq<ElemV>) -> Set<Seq<char>>
    decreases s,
{
    if s.len() == 0 {
        Set::empty()
    } else {
        funcs_of_eseq(s.drop_last()).union(funcs_of(s.last()))
    }
}

pub open spec fn funcs_of_prod(p: ProdV) -> Set<Seq<char>>
    decreases p,
{
    funcs_of_eseq(p.numerator).union(funcs_of_eseq(p.denominator))
}

pub open spec fn funcs_of_pseq(s: Seq<ProdV>) -> Set<Seq<char>>
    decreases s,
{
    if s.len() == 0 {
        Set::empty()
    } else {
        funcs_of_pseq(s.drop_last()).union(funcs_of_prod(s.last()))
    }
}

/// Purely numeric: a number leaf, or an expression all of whose factors are
/// themselves purely numeric. Any other leaf or structural node is not.
pub open spec fn numeric(e: ElemV) -> bool
    decreases e,
{
    match e.body {
        NoeV::Node(node) => node is Number,
        NoeV::Expression(x) => numeric_pseq(x.products),
    }
}

pub open spec fn numeric_eseq(s: Seq<ElemV>) -> bool
    decreases s,
{
    forall|i: int| 0 <= i < s.len() ==> numeric(#[trigger] s[i])
}

pub open spec fn numeric_prod(p: ProdV) -> bool
    decreases p,
{
    numeric_eseq(p.numerator) && numeric_eseq(p.denominator)
}

pub open spec fn numeric_pseq(s: Seq<ProdV>) -> bool
    decreases s,
{
    forall|i: int| 0 <= i < s.len() ==> numeric_prod(#[trigger] s[i])
}

// ---------------------------------------------------------------------------
// The analyzed shape of a tree.
// ---------------------------------------------------------------------------

/// The cache an analysis of `e` must produce.
pub open spec fn spec_cache(e: ElemV) -> CacheV {
    CacheV {
        variables: vars_of(e),
        functions: funcs_of(e),
        n_variables: vars_of(e).len(),
        n_functions: funcs_of(e).len(),
        is_number: Some(numeric(e)),
    }
}

/// `e` with a correct, current cache at every node.
pub open spec fn analyzed_elem(e: ElemV) -> bool
    decreases e,
{
    e.cache == Some(spec_cache(e)) && analyzed_noe(e.body)
}

pub open spec fn analyzed_noe(n: NoeV) -> bool
    decreases n,
{
    match n {
        NoeV::Node(node) => analyzed_node(node),
        NoeV::Expression(x) => analyzed_pseq(x.products),
    }
}

pub open spec fn analyzed_node(n: NodeV) -> bool
    decreases n,
{
    match n {
        NodeV::Number(_) => true,
        NodeV::Variable(_) => true,
        NodeV::Power { base, power } => analyzed_elem(*base) && analyzed_elem(*power),
        NodeV::Modulo { lhs, rhs } => analyzed_elem(*lhs) && analyzed_elem(*rhs),
        NodeV::Factorial { child } => analyzed_elem(*child),
        NodeV::Function { name, arguments } => analyzed_eseq(arguments),
    }
}

pub open spec fn analyzed_eseq(s: Seq<ElemV>) -> bool
    decreases s,
{
    forall|i: int| 0 <= i < s.len() ==> analyzed_elem(#[trigger] s[i])
}

pub open spec fn analyzed_prod(p: ProdV) -> bool
    decreases p,
{
    analyzed_eseq(p.numerator) && analyzed_eseq(p.denominator)
}

pub open spec fn analyzed_pseq(s: Seq<ProdV>) -> bool
    decreases s,
{
    forall|i: int| 0 <= i < s.len() ==> analyzed_prod(#[trigger] s[i])
}

// ---------------------------------------------------------------------------
// Name lists: unique vectors of strings standing for finite sets of names.
// ---------------------------------------------------------------------------

/// No name occurs twice.
pub open spec fn no_dup_names(v: Seq<String>) -> bool {
    forall|i: int, j: int| 0 <= i < j < v.len() ==> (#[trigger] v[i])@ != (#[trigger] v[j])@
}

/// A unique name list denotes a finite set of exactly its length.
pub proof fn lemma_names_set_props(v: Seq<String>)
    ensures
        names_set(v).finite(),
        no_dup_names(v) ==> names_set(v).len() == v.len(),
        v.len() > 0 ==> names_set(v) == names_set(v.drop_last()).insert(v.last()@),
        forall|s: Seq<char>|
            names_set(v).contains(s) <==> exists|i: int| 0 <= i < v.len() && (#[trigger] v[i])@
                == s,
    decreases v.len(),
{
    if v.len() == 0 {
        assert(names_set(v) =~= Set::<Seq<char>>::empty());
    } else {
        let pre = v.drop_last();
        lemma_names_set_props(pre);
        assert(forall|i: int| 0 <= i < pre.len() ==> pre[i] == v[i]);
        assert(names_set(v) =~= names_set(pre).insert(v.last()@)) by {
            assert forall|s: Seq<char>| names_set(v).contains(s) implies names_set(pre).insert(
                v.last()@,
            ).contains(s) by {
                let i = choose|i: int| 0 <= i < v.len() && v[i]@ == s;
                if i < v.len() - 1 {
                    assert(pre[i]@ == s);
                    assert(names_set(pre).contains(s));
                }
            }
            assert forall|s: Seq<char>|
                names_set(pre).insert(v.last()@).contains(s) implies names_set(v).contains(s) by {
                if names_set(pre).contains(s) {
                    let i = choose|i: int| 0 <= i < pre.len() && pre[i]@ == s;
                    assert(v[i]@ == s);
                } else {
                    assert(v[v.len() - 1]@ == s);
                }
            }
        }
        if no_dup_names(v) {
            assert(no_dup_names(pre));
            assert(!names_set(pre).contains(v.last()@)) by {
                if names_set(pre).contains(v.last()@) {
                    let i = choose|i: int| 0 <= i < pre.len() && pre[i]@ == v.last()@;
                    assert(v[i]@ == v[v.len() - 1]@);
                }
            }
        }
    }
}

/// Whether `s` already occurs in the list.
fn contains_name(v: &Vec<String>, s: &String) -> (r: bool)
    ensures
        r == names_set(v@).contains(s@),
{
    proof {
        lemma_names_set_props(v@);
    }
    let n = v.len();
    let mut i: usize = 0;
    while i < n
        invariant
            n == v@.len(),
            0 <= i <= n,
            forall|j: int| 0 <= j < i ==> (#[trigger] v@[j])@ != s@,
        decreases n - i,
    {
        if v[i] == *s {
            proof {
                lemma_names_set_props(v@);
            }
            return true;
        }
        i += 1;
    }
    proof {
        lemma_names_set_props(v@);
    }
    false
}

/// Add every name of `more` that is not yet present.
fn merge_names(acc: &mut Vec<String>, more: &Vec<String>)
    requires
        no_dup_names(old(acc)@),
    ensures
        no_dup_names(final(acc)@),
        names_set(final(acc)@) == names_set(old(acc)@).union(names_set(more@)),
{
    let n = more.len();
    let mut i: usize = 0;
    while i < n
        invariant
            n == more@.len(),
            0 <= i <= n,
            no_dup_names(acc@),
            names_set(acc@) =~= names_set(old(acc)@).union(
                names_set(more@.subrange(0, i as int)),
            ),
        decreases n - i,
    {
        proof {
            lemma_names_set_props(acc@);
            lemma_names_set_props(more@);
            lemma_names_set_props(more@.subrange(0, i as int));
            lemma_names_set_props(more@.subrange(0, i as int + 1));
        }
        let ghost acc0 = acc@;
        if !contains_name(acc, &more[i]) {
            acc.push(more[i].clone());
            proof {
                lemma_names_set_props(acc@);
                assert(acc@.drop_last() =~= acc0);
                assert(names_set(acc@.drop_last()) == names_set(acc0));
                assert(acc@.last()@ == more@[i as int]@);
                assert(names_set(acc@) =~= names_set(acc0).insert(more@[i as int]@));
                assert(forall|j: int|
                    0 <= j < acc0.len() ==> acc@[j] == acc0[j]);
                assert(no_dup_names(acc@)) by {
                    assert forall|a: int, b: int| 0 <= a < b < acc@.len() implies (
                    #[trigger] acc@[a])@ != (#[trigger] acc@[b])@ by {
                        if b == acc@.len() - 1 {
                            assert(!names_set(acc0).contains(more@[i as int]@));
                            assert(acc@[a] == acc0[a]);
                        }
                    }
                }
            }
        }
        proof {
            assert(more@.subrange(0, i as int + 1).drop_last() =~= more@.subrange(0, i as int));
            assert(more@.subrange(0, i as int + 1).last() == more@[i as int]);
            assert(names_set(more@.subrange(0, i as int + 1)) =~= names_set(
                more@.subrange(0, i as int),
            ).insert(more@[i as int]@));
            assert(names_set(acc@) =~= names_set(old(acc)@).union(
                names_set(more@.subrange(0, i as int + 1)),
            ));
        }
        i += 1;
    }
    proof {
        assert(more@.subrange(0, n as int) =~= more@);
        assert(names_set(acc@) =~= names_set(old(acc)@).union(names_set(more@)));
    }
}

// ---------------------------------------------------------------------------
// The analysis transformation on the model: same tree, caches filled.
// ---------------------------------------------------------------------------

pub open spec fn analyze_spec(e: ElemV) -> ElemV
    decreases e,
{
    ElemV { sign: e.sign, body: analyze_spec_noe(e.body), cache: Some(spec_cache(e)) }
}

pub open spec fn analyze_spec_noe(n: NoeV) -> NoeV
    decreases n,
{
    match n {
        NoeV::Node(node) => NoeV::Node(analyze_spec_node(node)),
        NoeV::Expression(x) => NoeV::Expression(ExprV { products: analyze_spec_pseq(x.products) }),
    }
}

pub open spec fn analyze_spec_node(n: NodeV) -> NodeV
    decreases n,
{
    match n {
        NodeV::Number(r) => NodeV::Number(r),
        NodeV::Variable(name) => NodeV::Variable(name),
        NodeV::Power { base, power } => NodeV::Power {
            base: Box::new(analyze_spec(*base)),
            power: Box::new(analyze_spec(*power)),
        },
        NodeV::Modulo { lhs, rhs } => NodeV::Modulo {
            lhs: Box::new(analyze_spec(*lhs)),
            rhs: Box::new(analyze_spec(*rhs)),
        },
        NodeV::Factorial { child } => NodeV::Factorial { child: Box::new(analyze_spec(*child)) },
        NodeV::Function { name, arguments } => NodeV::Function {
            name,
            arguments: analyze_spec_eseq(arguments),
        },
    }
}

pub open spec fn analyze_spec_eseq(s: Seq<ElemV>) -> Seq<ElemV>
    decreases s,
{
    if s.len() == 0 {
        Seq::empty()
    } else {
        analyze_spec_eseq(s.drop_last()).push(analyze_spec(s.last()))
    }
}

pub open spec fn analyze_spec_prod(p: ProdV) -> ProdV
    decreases p,
{
    ProdV {
        numerator: analyze_spec_eseq(p.numerator),
        denominator: analyze_spec_eseq(p.denominator),
    }
}

pub open spec fn analyze_spec_pseq(s: Seq<ProdV>) -> Seq<ProdV>
    decreases s,
{
    if s.len() == 0 {
        Seq::empty()
    } else {
        analyze_spec_pseq(s.drop_last()).push(analyze_spec_prod(s.last()))
    }
}

pub proof fn lemma_analyze_spec_eseq(s: Seq<ElemV>)
    ensures
        analyze_spec_eseq(s).len() == s.len(),
        forall|i: int| 0 <= i < s.len() ==> analyze_spec_eseq(s)[i] == analyze_spec(s[i]),
    decreases s,
{
    if s.len() > 0 {
        lemma_analyze_spec_eseq(s.drop_last());
    }
}

pub proof fn lemma_analyze_spec_pseq(s: Seq<ProdV>)
    ensures
        analyze_spec_pseq(s).len() == s.len(),
        forall|i: int| 0 <= i < s.len() ==> analyze_spec_pseq(s)[i] == analyze_spec_prod(s[i]),
    decreases s,
{
    if s.len() > 0 {
        lemma_analyze_spec_pseq(s.drop_last());
    }
}

// ---------------------------------------------------------------------------
// Analysis leaves the structure alone, its caches are correct, and the
// recorded occurrence sets are those of the tree it was given.
// ---------------------------------------------------------------------------

pub proof fn lemma_analyze_ok(e: ElemV)
    ensures
        vars_of(analyze_spec(e)) == vars_of(e),
        funcs_of(analyze_spec(e)) == funcs_of(e),
        numeric(analyze_spec(e)) == numeric(e),
        analyzed_elem(analyze_spec(e)),
        crate::ast::element::same_elem(analyze_spec(e), e),
    decreases e,
{
    lemma_analyze_ok_noe(e.body);
    assert(spec_cache(analyze_spec(e)) =~~= spec_cache(e));
}

pub proof fn lemma_analyze_ok_noe(n: NoeV)
    ensures
        vars_of_noe(analyze_spec_noe(n)) == vars_of_noe(n),
        funcs_of_noe(analyze_spec_noe(n)) == funcs_of_noe(n),
        analyzed_noe(analyze_spec_noe(n)),
        crate::ast::element::same_noe(analyze_spec_noe(n), n),
        n is Node ==> analyze_spec_noe(n)->Node_0 == analyze_spec_node(n->Node_0),
        n is Expression ==> numeric_pseq(analyze_spec_noe(n)->Expression_0.products)
            == numeric_pseq(n->Expression_0.products),
    decreases n,
{
    match n {
        NoeV::Node(node) => {
            lemma_analyze_ok_node(node);
        },
        NoeV::Expression(x) => {
            lemma_analyze_ok_pseq(x.products);
        },
    }
}

pub proof fn lemma_analyze_ok_node(nd: NodeV)
    ensures
        vars_of_node(analyze_spec_node(nd)) == vars_of_node(nd),
        funcs_of_node(analyze_spec_node(nd)) == funcs_of_node(nd),
        analyzed_node(analyze_spec_node(nd)),
        crate::ast::element::same_node(analyze_spec_node(nd), nd),
    decreases nd,
{
    match nd {
        NodeV::Number(_) => {
        },
        NodeV::Variable(_) => {
        },
        NodeV::Power { base, power } => {
            lemma_analyze_ok(*base);
            lemma_analyze_ok(*power);
        },
        NodeV::Modulo { lhs, rhs } => {
            lemma_analyze_ok(*lhs);
            lemma_analyze_ok(*rhs);
        },
        NodeV::Factorial { child } => {
            lemma_analyze_ok(*child);
        },
        NodeV::Function { name, arguments } => {
            lemma_analyze_ok_eseq(arguments);
        },
    }
}

pub proof fn lemma_analyze_ok_eseq(s: Seq<ElemV>)
    ensures
        analyze_spec_eseq(s).len() == s.len(),
        vars_of_eseq(analyze_spec_eseq(s)) == vars_of_eseq(s),
        funcs_of_eseq(analyze_spec_eseq(s)) == funcs_of_eseq(s),
        numeric_eseq(analyze_spec_eseq(s)) == numeric_eseq(s),
        analyzed_eseq(analyze_spec_eseq(s)),
        crate::ast::element::same_eseq(analyze_spec_eseq(s), s),
    decreases s,
{
    lemma_analyze_spec_eseq(s);
    if s.len() == 0 {
        assert(numeric_eseq(analyze_spec_eseq(s)));
        assert(numeric_eseq(s));
    } else {
        let pre = s.drop_last();
        lemma_analyze_ok_eseq(pre);
        lemma_analyze_ok(s.last());
        lemma_analyze_spec_eseq(pre);
        let out = analyze_spec_eseq(s);
        assert(out.drop_last() =~= analyze_spec_eseq(pre));
        assert(out.last() == analyze_spec(s.last()));
        assert(vars_of_eseq(out) =~= vars_of_eseq(s));
        assert(funcs_of_eseq(out) =~= funcs_of_eseq(s));
        assert(numeric_eseq(out) == numeric_eseq(s)) by {
            if numeric_eseq(s) {
                assert forall|i: int| 0 <= i < out.len() implies numeric(#[trigger] out[i]) by {
                    assert(numeric(s[i]));
                }
            }
            if numeric_eseq(out) {
                assert forall|i: int| 0 <= i < s.len() implies numeric(#[trigger] s[i]) by {
                    assert(numeric(out[i]));
                }
            }
        }
        assert(analyzed_eseq(out)) by {
            assert forall|i: int| 0 <= i < out.len() implies analyzed_elem(
                #[trigger] out[i],
            ) by {
                if i < out.len() - 1 {
                    assert(out[i] == analyze_spec_eseq(pre)[i]);
                }
            }
        }
        assert(crate::ast::element::same_eseq(out, s)) by {
            assert forall|i: int| 0 <= i < out.len() implies crate::ast::element::same_elem(
                #[trigger] out[i],
                s[i],
            ) by {
                if i < out.len() - 1 {
                    assert(out[i] == analyze_spec_eseq(pre)[i]);
                    assert(s[i] == pre[i]);
                }
            }
        }
    }
}

pub proof fn lemma_analyze_ok_prod(p: ProdV)
    ensures
        vars_of_prod(analyze_spec_prod(p)) == vars_of_prod(p),
        funcs_of_prod(analyze_spec_prod(p)) == funcs_of_prod(p),
        numeric_prod(analyze_spec_prod(p)) == numeric_prod(p),
        analyzed_prod(analyze_spec_prod(p)),
        crate::ast::element::same_prod(analyze_spec_prod(p), p),
    decreases p,
{
    lemma_analyze_ok_eseq(p.numerator);
    lemma_analyze_ok_eseq(p.denominator);
    assert(vars_of_prod(analyze_spec_prod(p)) =~= vars_of_prod(p));
    assert(funcs_of_prod(analyze_spec_prod(p)) =~= funcs_of_prod(p));
}

pub proof fn lemma_analyze_ok_pseq(s: Seq<ProdV>)
    ensures
        analyze_spec_pseq(s).len() == s.len(),
        vars_of_pseq(analyze_spec_pseq(s)) == vars_of_pseq(s),
        funcs_of_pseq(analyze_spec_pseq(s)) == funcs_of_pseq(s),
        numeric_pseq(analyze_spec_pseq(s)) == numeric_pseq(s),
        analyzed_pseq(analyze_spec_pseq(s)),
        crate::ast::element::same_pseq(analyze_spec_pseq(s), s),
    decreases s,
{
    lemma_analyze_spec_pseq(s);
    if s.len() == 0 {
        assert(numeric_pseq(analyze_spec_pseq(s)));
        assert(numeric_pseq(s));
    } else {
        let pre = s.drop_last();
        lemma_analyze_ok_pseq(pre);
        lemma_analyze_ok_prod(s.last());
        lemma_analyze_spec_pseq(pre);
        let out = analyze_spec_pseq(s);
        assert(out.drop_last() =~= analyze_spec_pseq(pre));
        assert(out.last() == analyze_spec_prod(s.last()));
        assert(vars_of_pseq(out) =~= vars_of_pseq(s));
        assert(funcs_of_pseq(out) =~= funcs_of_pseq(s));
        assert(numeric_pseq(out) == numeric_pseq(s)) by {
            if numeric_pseq(s) {
                assert forall|i: int| 0 <= i < out.len() implies numeric_prod(
                    #[trigger] out[i],
                ) by {
                    assert(numeric_prod(s[i]));
                    assert(out[i] == analyze_spec_prod(s[i]));
                    lemma_analyze_ok_prod(s[i]);
                }
                assert(numeric_pseq(out));
            }
            if numeric_pseq(out) {
                assert forall|i: int| 0 <= i < s.len() implies numeric_prod(#[trigger] s[i]) by {
                    assert(out[i] == analyze_spec_prod(s[i]));
                    assert(numeric_prod(out[i]));
                    lemma_analyze_ok_prod(s[i]);
                }
                assert(numeric_pseq(s));
            }
        }
        assert(analyzed_pseq(out)) by {
            assert forall|i: int| 0 <= i < out.len() implies analyzed_prod(#[trigger] out[i]) by {
                assert(out[i] == analyze_spec_prod(s[i]));
                lemma_analyze_ok_prod(s[i]);
            }
        }
        assert(crate::ast::element::same_pseq(out, s)) by {
            assert forall|i: int| 0 <= i < out.len() implies crate::ast::element::same_prod(
                #[trigger] out[i],
                s[i],
            ) by {
                assert(out[i] == analyze_spec_prod(s[i]));
                lemma_analyze_ok_prod(s[i]);
            }
        }
    }
}

// ---------------------------------------------------------------------------
// Prefix reasoning for the occurrence folds.
// ---------------------------------------------------------------------------

proof fn lemma_eseq_prefix_step(s: Seq<ElemV>, i: int)
    requires
        0 <= i < s.len(),
    ensures
        vars_of_eseq(s.subrange(0, i + 1)) == vars_of_eseq(s.subrange(0, i)).union(
            vars_of(s[i]),
        ),
        funcs_of_eseq(s.subrange(0, i + 1)) == funcs_of_eseq(s.subrange(0, i)).union(
            funcs_of(s[i]),
        ),
        numeric_eseq(s.subrange(0, i + 1)) == (numeric_eseq(s.subrange(0, i)) && numeric(s[i])),
        analyzed_eseq(s.subrange(0, i + 1)) == (analyzed_eseq(s.subrange(0, i))
            && analyzed_elem(s[i])),
{
    let a = s.subrange(0, i + 1);
    let b = s.subrange(0, i);
    assert(a.drop_last() =~= b);
    assert(a.last() == s[i]);
    assert(numeric_eseq(a) == (numeric_eseq(b) && numeric(s[i]))) by {
        if numeric_eseq(b) && numeric(s[i]) {
            assert forall|j: int| 0 <= j < a.len() implies numeric(#[trigger] a[j]) by {
                if j < i {
                    assert(a[j] == b[j]);
                }
            }
        }
        if numeric_eseq(a) {
            assert forall|j: int| 0 <= j < b.len() implies numeric(#[trigger] b[j]) by {
                assert(b[j] == a[j]);
            }
            assert(numeric(a[i]));
        }
    }
    assert(analyzed_eseq(a) == (analyzed_eseq(b) && analyzed_elem(s[i]))) by {
        if analyzed_eseq(b) && analyzed_elem(s[i]) {
            assert forall|j: int| 0 <= j < a.len() implies analyzed_elem(#[trigger] a[j]) by {
                if j < i {
                    assert(a[j] == b[j]);
                }
            }
        }
        if analyzed_eseq(a) {
            assert forall|j: int| 0 <= j < b.len() implies analyzed_elem(#[trigger] b[j]) by {
                assert(b[j] == a[j]);
            }
        }
    }
}

proof fn lemma_pseq_prefix_step(s: Seq<ProdV>, i: int)
    requires
        0 <= i < s.len(),
    ensures
        vars_of_pseq(s.subrange(0, i + 1)) == vars_of_pseq(s.subrange(0, i)).union(
            vars_of_prod(s[i]),
        ),
        funcs_of_pseq(s.subrange(0, i + 1)) == funcs_of_pseq(s.subrange(0, i)).union(
            funcs_of_prod(s[i]),
        ),
        numeric_pseq(s.subrange(0, i + 1)) == (numeric_pseq(s.subrange(0, i))
            && numeric_prod(s[i])),
{
    let a = s.subrange(0, i + 1);
    let b = s.subrange(0, i);
    assert(a.drop_last() =~= b);
    assert(a.last() == s[i]);
    assert(numeric_pseq(a) == (numeric_pseq(b) && numeric_prod(s[i]))) by {
        if numeric_pseq(b) && numeric_prod(s[i]) {
            assert forall|j: int| 0 <= j < a.len() implies numeric_prod(#[trigger] a[j]) by {
                if j < i {
                    assert(a[j] == b[j]);
                }
            }
        }
        if numeric_pseq(a) {
            assert forall|j: int| 0 <= j < b.len() implies numeric_prod(#[trigger] b[j]) by {
                assert(b[j] == a[j]);
            }
            assert(numeric_prod(a[i]));
        }
    }
}

// ---------------------------------------------------------------------------
// The executable pass.
// ---------------------------------------------------------------------------

/// What the aggregate of an analysis step promises about a cache value.
pub open spec fn cache_describes(
    c: ElementCache,
    vars: Set<Seq<char>>,
    funcs: Set<Seq<char>>,
    num: bool,
) -> bool {
    &&& no_dup_names(c.variables@)
    &&& no_dup_names(c.functions@)
    &&& names_set(c.variables@) == vars
    &&& names_set(c.functions@) == funcs
    &&& c.is_number == Some(num)
}

fn analyze_elem(e: &Element) -> (r: (Element, ElementCache))
    ensures
        view_element(r.0) == analyze_spec(e@),
        cache_describes(r.1, vars_of(e@), funcs_of(e@), numeric(e@)),
    decreases *e,
{
    let (body, cache) = match &e.node_or_expression {
        NodeOrExpression::Node(n) => {
            let (n2, c) = analyze_node(n);
            (NodeOrExpression::Node(n2), c)
        },
        NodeOrExpression::Expression(x) => {
            let (ps, c) = analyze_pseq(&x.products);
            (NodeOrExpression::Expression(Expression { products: ps }), c)
        },
    };
    let r0 = Element { sign: e.sign, node_or_expression: body, cache: Some(cache.duplicate()) };
    proof {
        lemma_names_set_props(cache.variables@);
        lemma_names_set_props(cache.functions@);
        assert(cache@ =~~= spec_cache(e@));
        assert(view_element(r0) =~~= analyze_spec(e@));
    }
    (r0, cache)
}

fn analyze_node(n: &Node) -> (r: (Node, ElementCache))
    ensures
        view_node(r.0) == analyze_spec_node(n@),
        cache_describes(
            r.1,
            vars_of_node(n@),
            funcs_of_node(n@),
            view_node(r.0) is Number,
        ),
    decreases *n,
{
    match n {
        Node::Number(x) => {
            let mut c = ElementCache::new();
            c.is_number = Some(true);
            proof {
                assert(names_set(c.variables@) =~= Set::<Seq<char>>::empty());
                assert(names_set(c.functions@) =~= Set::<Seq<char>>::empty());
            }
            (Node::Number(*x), c)
        },
        Node::Variable(name) => {
            let mut vars: Vec<String> = Vec::new();
            vars.push(name.clone());
            proof {
                lemma_names_set_props(vars@);
                assert(vars@.drop_last() =~= Seq::<String>::empty());
                assert(names_set(vars@) =~= Set::empty().insert(name@));
            }
            let c = ElementCache { variables: vars, functions: Vec::new(), is_number: Some(
                false,
            ) };
            proof {
                assert(names_set(c.functions@) =~= Set::<Seq<char>>::empty());
            }
            (Node::Variable(name.clone()), c)
        },
        Node::Power { base, power } => {
            let (b2, cb) = analyze_elem(base);
            let (p2, cp) = analyze_elem(power);
            let c = merge_caches(cb, &cp, false);
            (Node::Power { base: Box::new(b2), power: Box::new(p2) }, c)
        },
        Node::Modulo { lhs, rhs } => {
            let (l2, cl) = analyze_elem(lhs);
            let (r2, cr) = analyze_elem(rhs);
            let c = merge_caches(cl, &cr, false);
            (Node::Modulo { lhs: Box::new(l2), rhs: Box::new(r2) }, c)
        },
        Node::Factorial { child } => {
            let (c2, cc) = analyze_elem(child);
            let c = ElementCache {
                variables: cc.variables,
                functions: cc.functions,
                is_number: Some(false),
            };
            (Node::Factorial { child: Box::new(c2) }, c)
        },
        Node::Function { name, arguments } => {
            let (args, ca) = analyze_eseq(arguments);
            let mut funcs = ca.functions;
            let ghost funcs0 = funcs@;
            if !contains_name(&funcs, name) {
                funcs.push(name.clone());
                proof {
                    lemma_names_set_props(funcs@);
                    assert(funcs@.drop_last() =~= funcs0);
                    assert(forall|j: int| 0 <= j < funcs0.len() ==> funcs@[j] == funcs0[j]);
                    assert(no_dup_names(funcs@)) by {
                        assert forall|a: int, b: int| 0 <= a < b < funcs@.len() implies (
                        #[trigger] funcs@[a])@ != (#[trigger] funcs@[b])@ by {
                            if b == funcs@.len() - 1 {
                                assert(!names_set(funcs0).contains(name@));
                                assert(funcs@[a] == funcs0[a]);
                            }
                        }
                    }
                }
            } else {
                proof {
                    assert(names_set(funcs@) =~= names_set(funcs0).insert(name@));
                }
            }
            proof {
                assert(names_set(funcs@) =~= funcs_of_eseq(view_elem_seq(arguments@)).insert(
                    name@,
                ));
            }
            let c = ElementCache {
                variables: ca.variables,
                functions: funcs,
                is_number: Some(false),
            };
            let r0 = Node::Function { name: name.clone(), arguments: args };
            proof {
                assert(view_node(r0) =~~= analyze_spec_node(n@));
            }
            (r0, c)
        },
    }
}

/// Union the name lists of two caches, with an explicit numeric status.
fn merge_caches(a: ElementCache, b: &ElementCache, num: bool) -> (r: ElementCache)
    requires
        no_dup_names(a.variables@),
        no_dup_names(a.functions@),
    ensures
        no_dup_names(r.variables@),
        no_dup_names(r.functions@),
        names_set(r.variables@) == names_set(a.variables@).union(names_set(b.variables@)),
        names_set(r.functions@) == names_set(a.functions@).union(names_set(b.functions@)),
        r.is_number == Some(num),
{
    let mut vars = a.variables;
    let mut funcs = a.functions;
    merge_names(&mut vars, &b.variables);
    merge_names(&mut funcs, &b.functions);
    ElementCache { variables: vars, functions: funcs, is_number: Some(num) }
}

fn analyze_eseq(v: &Vec<Element>) -> (r: (Vec<Element>, ElementCache))
    ensures
        view_elem_seq(r.0@) == analyze_spec_eseq(view_elem_seq(v@)),
        cache_describes(
            r.1,
            vars_of_eseq(view_elem_seq(v@)),
            funcs_of_eseq(view_elem_seq(v@)),
            numeric_eseq(view_elem_seq(v@)),
        ),
    decreases v@,
{
    let ghost sv = view_elem_seq(v@);
    proof {
        lemma_view_elem_seq(v@);
    }
    let mut out: Vec<Element> = Vec::new();
    let mut vars: Vec<String> = Vec::new();
    let mut funcs: Vec<String> = Vec::new();
    let mut all_num = true;
    let n = v.len();
    let mut i: usize = 0;
    proof {
        assert(sv.subrange(0, 0) =~= Seq::<ElemV>::empty());
        assert(names_set(vars@) =~= Set::<Seq<char>>::empty());
        assert(names_set(funcs@) =~= Set::<Seq<char>>::empty());
    }
    while i < n
        invariant
            n == v@.len(),
            sv == view_elem_seq(v@),
            sv.len() == n,
            forall|j: int| 0 <= j < n ==> sv[j] == view_element(v@[j]),
            0 <= i <= n,
            out@.len() == i,
            forall|j: int|
                0 <= j < i ==> view_element(#[trigger] out@[j]) == analyze_spec(sv[j]),
            no_dup_names(vars@),
            no_dup_names(funcs@),
            names_set(vars@) == vars_of_eseq(sv.subrange(0, i as int)),
            names_set(funcs@) == funcs_of_eseq(sv.subrange(0, i as int)),
            all_num == numeric_eseq(sv.subrange(0, i as int)),
        decreases n - i,
    {
        let (e2, ce) = analyze_elem(&v[i]);
        out.push(e2);
        merge_names(&mut vars, &ce.variables);
        merge_names(&mut funcs, &ce.functions);
        let this_num = match ce.is_number {
            Some(b) => b,
            None => false,
        };
        all_num = all_num && this_num;
        proof {
            lemma_eseq_prefix_step(sv, i as int);
        }
        i += 1;
    }
    proof {
        assert(sv.subrange(0, n as int) =~= sv);
        lemma_view_elem_seq(out@);
        lemma_analyze_spec_eseq(sv);
        assert(view_elem_seq(out@) =~= analyze_spec_eseq(sv));
    }
    (out, ElementCache { variables: vars, functions: funcs, is_number: Some(all_num) })
}

fn analyze_prod(p: &Product) -> (r: (Product, ElementCache))
    ensures
        view_product(r.0) == analyze_spec_prod(view_product(*p)),
        cache_describes(
            r.1,
            vars_of_prod(view_product(*p)),
            funcs_of_prod(view_product(*p)),
            numeric_prod(view_product(*p)),
        ),
    decreases *p,
{
    let (num, cn) = analyze_eseq(&p.numerator);
    let (den, cd) = analyze_eseq(&p.denominator);
    let this_num = match (cn.is_number, cd.is_number) {
        (Some(a), Some(b)) => a && b,
        _ => false,
    };
    let c = merge_caches(cn, &cd, this_num);
    let r0 = Product { numerator: num, denominator: den };
    proof {
        assert(view_product(r0) =~~= analyze_spec_prod(view_product(*p)));
        assert(vars_of_prod(view_product(*p)) =~= names_set(c.variables@));
        assert(funcs_of_prod(view_product(*p)) =~= names_set(c.functions@));
    }
    (r0, c)
}

fn analyze_pseq(v: &Vec<Product>) -> (r: (Vec<Product>, ElementCache))
    ensures
        view_prod_seq(r.0@) == analyze_spec_pseq(view_prod_seq(v@)),
        cache_describes(
            r.1,
            vars_of_pseq(view_prod_seq(v@)),
            funcs_of_pseq(view_prod_seq(v@)),
            numeric_pseq(view_prod_seq(v@)),
        ),
    decreases v@,
{
    let ghost sv = view_prod_seq(v@);
    proof {
        crate::ast::element::lemma_view_prod_seq(v@);
    }
    let mut out: Vec<Product> = Vec::new();
    let mut vars: Vec<String> = Vec::new();
    let mut funcs: Vec<String> = Vec::new();
    let mut all_num = true;
    let n = v.len();
    let mut i: usize = 0;
    proof {
        assert(sv.subrange(0, 0) =~= Seq::<ProdV>::empty());
    }
    while i < n
        invariant
            n == v@.len(),
            sv == view_prod_seq(v@),
            sv.len() == n,
            forall|j: int| 0 <= j < n ==> sv[j] == view_product(v@[j]),
            0 <= i <= n,
            out@.len() == i,
            forall|j: int|
                0 <= j < i ==> view_product(#[trigger] out@[j]) == analyze_spec_prod(sv[j]),
            no_dup_names(vars@),
            no_dup_names(funcs@),
            names_set(vars@) == vars_of_pseq(sv.subrange(0, i as int)),
            names_set(funcs@) == funcs_of_pseq(sv.subrange(0, i as int)),
            all_num == numeric_pseq(sv.subrange(0, i as int)),
        decreases n - i,
    {
        let (p2, cp) = analyze_prod(&v[i]);
        out.push(p2);
        merge_names(&mut vars, &cp.variables);
        merge_names(&mut funcs, &cp.functions);
        let this_num = match cp.is_number {
            Some(b) => b,
            None => false,
        };
        all_num = all_num && this_num;
        proof {
            lemma_pseq_prefix_step(sv, i as int);
        }
        i += 1;
    }
    proof {
        assert(sv.subrange(0, n as int) =~= sv);
        crate::ast::element::lemma_view_prod_seq(out@);
        lemma_analyze_spec_pseq(sv);
        assert(view_prod_seq(out@) =~= analyze_spec_pseq(sv));
    }
    (out, ElementCache { variables: vars, functions: funcs, is_number: Some(all_num) })
}

impl Element {
    /// Fill every cache bottom-up. Must be run again after a structural edit.
    pub fn analyze(&mut self)
        ensures
            final(self)@ == analyze_spec(old(self)@),
            analyzed_elem(final(self)@),
            crate::ast::element::same_elem(final(self)@, old(self)@),
    {
        let (e2, _) = analyze_elem(&*self);
        proof {
            lemma_analyze_ok(old(self)@);
        }
        *self = e2;
    }

    /// Whether this element is purely numeric, read off the cache.
    pub fn is_number(&self) -> (r: bool)
        requires
            analyzed_elem(self@),
        ensures
            r == numeric(self@),
    {
        match &self.cache {
            Some(c) => match c.is_number {
                Some(b) => b,
                None => {
                    proof {
                        assert(false);
                    }
                    false
                },
            },
            None => {
                proof {
                    assert(false);
                }
                false
            },
        }
    }
}

} // verus!
