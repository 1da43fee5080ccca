//! Structural equivalence up to renaming.
//!
//! Two trees are "the same" when they have the same shape with numbers equal
//! by value, while variable and function names may differ. Every name pair
//! the comparison meets is recorded as evidence in an `IsSameNames` table;
//! a caller must then run the consistency check, which demands that every
//! candidate list recorded for one left-hand name holds a single value.
//!
//! Unordered collections (an expression's products, a product's factor
//! lists, a function's arguments) are compared by sorting both copies by a
//! total structural order and then looking for any matching cross pair;
//! this deliberately weaker multiset comparison is what the normalization
//! fixpoint detection relies on.

use vstd::prelude::*;

use crate::ast::element::{
    view_elem_seq, view_element, ElemV, Element, Node, NodeOrExpression, NodeV, NoeV,
    ProdV, Product, Sign,
};
use crate::rational::Rational;
use crate::ast::element::{dup_prod, lemma_view_elem_seq, lemma_view_prod_seq, view_prod_seq, view_product, view_noe, view_node};
use crate::ast::equation::Equation;

verus! {

// ---------------------------------------------------------------------------
// Sizes: the termination measure for comparisons over sorted copies.
// ---------------------------------------------------------------------------

pub open spec fn size_elem(e: ElemV) -> nat
    decreases e,
{
    1 + size_noe(e.body)
}

pub open spec fn size_noe(n: NoeV) -> nat
    decreases n,
{
    match n {
        NoeV::Node(nd) => size_node(nd),
        NoeV::Expression(x) => 1 + size_pseq(x.products),
    }
}

pub open spec fn size_node(nd: NodeV) -> nat
    decreases nd,
{
    match nd {
        NodeV::Number(_) => 1,
        NodeV::Variable(_) => 1,
        NodeV::Power { base, power } => 1 + size_elem(*base) + size_elem(*power),
        NodeV::Modulo { lhs, rhs } => 1 + size_elem(*lhs) + size_elem(*rhs),
        NodeV::Factorial { child } => 1 + size_elem(*child),
        NodeV::Function { name, arguments } => 1 + size_eseq(arguments),
    }
}

pub open spec fn size_eseq(s: Seq<ElemV>) -> nat
    decreases s,
{
    if s.len() == 0 {
        0
    } else {
        size_eseq(s.drop_last()) + size_elem(s.last()) + 1
    }
}

pub open spec fn size_prod(p: ProdV) -> nat
    decreases p,
{
    1 + size_eseq(p.numerator) + size_eseq(p.denominator)
}

pub open spec fn size_pseq(s: Seq<ProdV>) -> nat
    decreases s,
{
    if s.len() == 0 {
        0
    } else {
        size_pseq(s.drop_last()) + size_prod(s.last()) + 1
    }
}

/// An element of a list weighs strictly less than the whole list.
pub proof fn lemma_size_eseq_elem(s: Seq<ElemV>, i: int)
    requires
        0 <= i < s.len(),
    ensures
        size_elem(s[i]) < size_eseq(s),
    decreases s.len(),
{
    if i == s.len() - 1 {
    } else {
        lemma_size_eseq_elem(s.drop_last(), i);
        assert(s.drop_last()[i] == s[i]);
    }
}

pub proof fn lemma_size_pseq_elem(s: Seq<ProdV>, i: int)
    requires
        0 <= i < s.len(),
    ensures
        size_prod(s[i]) < size_pseq(s),
    decreases s.len(),
{
    if i == s.len() - 1 {
    } else {
        lemma_size_pseq_elem(s.drop_last(), i);
        assert(s.drop_last()[i] == s[i]);
    }
}

// ---------------------------------------------------------------------------
// A total structural order on trees, mirroring a field-by-field,
// variant-rank comparison with numbers ordered by value.
// ---------------------------------------------------------------------------

pub open spec fn cmp_sign(a: Sign, b: Sign) -> int {
    let ra: int = if a is Positive {
        0
    } else {
        1
    };
    let rb: int = if b is Positive {
        0
    } else {
        1
    };
    if ra < rb {
        -1
    } else if ra > rb {
        1
    } else {
        0
    }
}

pub open spec fn cmp_rat(a: Rational, b: Rational) -> int {
    let l = a.num * b.den;
    let r = b.num * a.den;
    if l < r {
        -1
    } else if l > r {
        1
    } else {
        0
    }
}

pub open spec fn cmp_chars(a: Seq<char>, b: Seq<char>) -> int
    decreases a.len(),
{
    if a.len() == 0 && b.len() == 0 {
        0
    } else if a.len() == 0 {
        -1
    } else if b.len() == 0 {
        1
    } else if (a[0] as u32) < (b[0] as u32) {
        -1
    } else if (a[0] as u32) > (b[0] as u32) {
        1
    } else {
        cmp_chars(a.drop_first(), b.drop_first())
    }
}

pub open spec fn node_rank(n: NodeV) -> int {
    match n {
        NodeV::Number(_) => 0,
        NodeV::Variable(_) => 1,
        NodeV::Power { .. } => 2,
        NodeV::Modulo { .. } => 3,
        NodeV::Factorial { .. } => 4,
        NodeV::Function { .. } => 5,
    }
}

pub open spec fn cmp_elem(a: ElemV, b: ElemV) -> int
    decreases size_elem(a), 3int,
{
    let c = cmp_sign(a.sign, b.sign);
    if c != 0 {
        c
    } else {
        cmp_noe(a.body, b.body)
    }
}

pub open spec fn cmp_noe(a: NoeV, b: NoeV) -> int
    decreases size_noe(a), 2int,
{
    match (a, b) {
        (NoeV::Node(x), NoeV::Node(y)) => cmp_node(x, y),
        (NoeV::Node(_), NoeV::Expression(_)) => -1,
        (NoeV::Expression(_), NoeV::Node(_)) => 1,
        (NoeV::Expression(x), NoeV::Expression(y)) => cmp_pseq(x.products, y.products),
    }
}

pub open spec fn cmp_node(a: NodeV, b: NodeV) -> int
    decreases size_node(a), 1int,
{
    if node_rank(a) < node_rank(b) {
        -1
    } else if node_rank(a) > node_rank(b) {
        1
    } else {
        match (a, b) {
            (NodeV::Number(x), NodeV::Number(y)) => cmp_rat(x, y),
            (NodeV::Variable(x), NodeV::Variable(y)) => cmp_chars(x, y),
            (NodeV::Power { base: b1, power: p1 }, NodeV::Power { base: b2, power: p2 }) => {
                let c = cmp_elem(*b1, *b2);
                if c != 0 {
                    c
                } else {
                    cmp_elem(*p1, *p2)
                }
            },
            (NodeV::Modulo { lhs: l1, rhs: r1 }, NodeV::Modulo { lhs: l2, rhs: r2 }) => {
                let c = cmp_elem(*l1, *l2);
                if c != 0 {
                    c
                } else {
                    cmp_elem(*r1, *r2)
                }
            },
            (NodeV::Factorial { child: c1 }, NodeV::Factorial { child: c2 }) => cmp_elem(
                *c1,
                *c2,
            ),
            (
                NodeV::Function { name: n1, arguments: a1 },
                NodeV::Function { name: n2, arguments: a2 },
            ) => {
                let c = cmp_chars(n1, n2);
                if c != 0 {
                    c
                } else {
                    cmp_eseq(a1, a2)
                }
            },
            _ => 0,
        }
    }
}

pub open spec fn cmp_eseq(a: Seq<ElemV>, b: Seq<ElemV>) -> int
    decreases size_eseq(a), 0int,
{
    if a.len() == 0 && b.len() == 0 {
        0
    } else if a.len() == 0 {
        -1
    } else if b.len() == 0 {
        1
    } else {
        let c = ({
            proof {
                lemma_size_eseq_elem(a, 0);
            }
            cmp_elem(a[0], b[0])
        });
        if c != 0 {
            c
        } else {
            proof {
                lemma_size_drop_first(a);
            }
            cmp_eseq(a.drop_first(), b.drop_first())
        }
    }
}

pub open spec fn cmp_prod(a: ProdV, b: ProdV) -> int
    decreases size_prod(a), 1int,
{
    let c = cmp_eseq(a.numerator, b.numerator);
    if c != 0 {
        c
    } else {
        cmp_eseq(a.denominator, b.denominator)
    }
}

pub open spec fn cmp_pseq(a: Seq<ProdV>, b: Seq<ProdV>) -> int
    decreases size_pseq(a), 0int,
{
    if a.len() == 0 && b.len() == 0 {
        0
    } else if a.len() == 0 {
        -1
    } else if b.len() == 0 {
        1
    } else {
        let c = ({
            proof {
                lemma_size_pseq_elem(a, 0);
            }
            cmp_prod(a[0], b[0])
        });
        if c != 0 {
            c
        } else {
            proof {
                lemma_size_pseq_drop_first(a);
            }
            cmp_pseq(a.drop_first(), b.drop_first())
        }
    }
}

/// Dropping the head strictly shrinks a list's weight.
pub proof fn lemma_size_drop_first(s: Seq<ElemV>)
    requires
        s.len() > 0,
    ensures
        size_eseq(s.drop_first()) < size_eseq(s),
    decreases s.len(),
{
    if s.len() == 1 {
        assert(s.drop_first() =~= Seq::<ElemV>::empty());
    } else {
        lemma_size_drop_first(s.drop_last());
        assert(s.drop_first().drop_last() =~= s.drop_last().drop_first());
        assert(s.drop_first().last() == s.last());
    }
}

pub proof fn lemma_size_pseq_drop_first(s: Seq<ProdV>)
    requires
        s.len() > 0,
    ensures
        size_pseq(s.drop_first()) < size_pseq(s),
    decreases s.len(),
{
    if s.len() == 1 {
        assert(s.drop_first() =~= Seq::<ProdV>::empty());
    } else {
        lemma_size_pseq_drop_first(s.drop_last());
        assert(s.drop_first().drop_last() =~= s.drop_last().drop_first());
        assert(s.drop_first().last() == s.last());
    }
}

// ---------------------------------------------------------------------------
// Stable insertion sort by the structural order.
// ---------------------------------------------------------------------------

pub open spec fn ins_elem(s: Seq<ElemV>, x: ElemV) -> Seq<ElemV>
    decreases s.len(),
{
    if s.len() == 0 {
        seq![x]
    } else if cmp_elem(x, s[0]) < 0 {
        seq![x].add(s)
    } else {
        seq![s[0]].add(ins_elem(s.drop_first(), x))
    }
}

pub open spec fn sort_elems(s: Seq<ElemV>) -> Seq<ElemV>
    decreases s.len(),
{
    if s.len() == 0 {
        Seq::empty()
    } else {
        ins_elem(sort_elems(s.drop_last()), s.last())
    }
}

pub open spec fn ins_prod(s: Seq<ProdV>, x: ProdV) -> Seq<ProdV>
    decreases s.len(),
{
    if s.len() == 0 {
        seq![x]
    } else if cmp_prod(x, s[0]) < 0 {
        seq![x].add(s)
    } else {
        seq![s[0]].add(ins_prod(s.drop_first(), x))
    }
}

pub open spec fn sort_prods(s: Seq<ProdV>) -> Seq<ProdV>
    decreases s.len(),
{
    if s.len() == 0 {
        Seq::empty()
    } else {
        ins_prod(sort_prods(s.drop_last()), s.last())
    }
}

/// Prepending preserves the weight equation.
proof fn lemma_size_eseq_cons(x: ElemV, t: Seq<ElemV>)
    ensures
        size_eseq(seq![x].add(t)) == 1 + size_elem(x) + size_eseq(t),
    decreases t.len(),
{
    let s = seq![x].add(t);
    assert(s.len() == 1 + t.len());
    if t.len() == 0 {
        assert(s.drop_last() =~= Seq::<ElemV>::empty());
        assert(s.last() == x);
        assert(size_eseq(s) == size_eseq(s.drop_last()) + size_elem(s.last()) + 1);
        assert(size_eseq(s.drop_last()) == 0);
        assert(size_eseq(t) == 0);
    } else {
        lemma_size_eseq_cons(x, t.drop_last());
        assert(s.drop_last() =~= seq![x].add(t.drop_last()));
        assert(s.last() == t.last());
        assert(size_eseq(s) == size_eseq(s.drop_last()) + size_elem(s.last()) + 1);
        assert(size_eseq(s.drop_last()) == 1 + size_elem(x) + size_eseq(t.drop_last()));
        assert(size_eseq(t) == size_eseq(t.drop_last()) + size_elem(t.last()) + 1);
    }
}

proof fn lemma_size_pseq_cons(x: ProdV, t: Seq<ProdV>)
    ensures
        size_pseq(seq![x].add(t)) == 1 + size_prod(x) + size_pseq(t),
    decreases t.len(),
{
    let s = seq![x].add(t);
    assert(s.len() == 1 + t.len());
    if t.len() == 0 {
        assert(s.drop_last() =~= Seq::<ProdV>::empty());
        assert(s.last() == x);
        assert(size_pseq(s) == size_pseq(s.drop_last()) + size_prod(s.last()) + 1);
        assert(size_pseq(s.drop_last()) == 0);
        assert(size_pseq(t) == 0);
    } else {
        lemma_size_pseq_cons(x, t.drop_last());
        assert(s.drop_last() =~= seq![x].add(t.drop_last()));
        assert(s.last() == t.last());
        assert(size_pseq(s) == size_pseq(s.drop_last()) + size_prod(s.last()) + 1);
        assert(size_pseq(s.drop_last()) == 1 + size_prod(x) + size_pseq(t.drop_last()));
        assert(size_pseq(t) == size_pseq(t.drop_last()) + size_prod(t.last()) + 1);
    }
}

/// Insertion adds exactly the inserted element's weight.
pub proof fn lemma_ins_elem_size(s: Seq<ElemV>, x: ElemV)
    ensures
        ins_elem(s, x).len() == s.len() + 1,
        size_eseq(ins_elem(s, x)) == size_eseq(s) + size_elem(x) + 1,
    decreases s.len(),
{
    if s.len() == 0 {
        lemma_size_eseq_cons(x, Seq::<ElemV>::empty());
        assert(seq![x].add(Seq::<ElemV>::empty()) =~= seq![x]);
        assert(ins_elem(s, x) == seq![x]);
        assert(size_eseq(s) == 0);
    } else if cmp_elem(x, s[0]) < 0 {
        lemma_size_eseq_cons(x, s);
        assert(ins_elem(s, x) == seq![x].add(s));
    } else {
        lemma_ins_elem_size(s.drop_first(), x);
        lemma_size_eseq_cons(s[0], ins_elem(s.drop_first(), x));
        lemma_size_eseq_cons(s[0], s.drop_first());
        assert(seq![s[0]].add(s.drop_first()) =~= s);
        assert(ins_elem(s, x) == seq![s[0]].add(ins_elem(s.drop_first(), x)));
        assert(size_eseq(ins_elem(s, x)) == 1 + size_elem(s[0]) + size_eseq(
            ins_elem(s.drop_first(), x),
        ));
        assert(size_eseq(s) == 1 + size_elem(s[0]) + size_eseq(s.drop_first()));
    }
}

pub proof fn lemma_ins_prod_size(s: Seq<ProdV>, x: ProdV)
    ensures
        ins_prod(s, x).len() == s.len() + 1,
        size_pseq(ins_prod(s, x)) == size_pseq(s) + size_prod(x) + 1,
    decreases s.len(),
{
    if s.len() == 0 {
        lemma_size_pseq_cons(x, Seq::<ProdV>::empty());
        assert(seq![x].add(Seq::<ProdV>::empty()) =~= seq![x]);
        assert(ins_prod(s, x) == seq![x]);
        assert(size_pseq(s) == 0);
    } else if cmp_prod(x, s[0]) < 0 {
        lemma_size_pseq_cons(x, s);
        assert(ins_prod(s, x) == seq![x].add(s));
    } else {
        lemma_ins_prod_size(s.drop_first(), x);
        lemma_size_pseq_cons(s[0], ins_prod(s.drop_first(), x));
        lemma_size_pseq_cons(s[0], s.drop_first());
        assert(seq![s[0]].add(s.drop_first()) =~= s);
        assert(ins_prod(s, x) == seq![s[0]].add(ins_prod(s.drop_first(), x)));
        assert(size_pseq(ins_prod(s, x)) == 1 + size_prod(s[0]) + size_pseq(
            ins_prod(s.drop_first(), x),
        ));
        assert(size_pseq(s) == 1 + size_prod(s[0]) + size_pseq(s.drop_first()));
    }
}

/// Sorting permutes, so the weight and the length are unchanged.
pub proof fn lemma_sort_elems_size(s: Seq<ElemV>)
    ensures
        sort_elems(s).len() == s.len(),
        size_eseq(sort_elems(s)) == size_eseq(s),
    decreases s.len(),
{
    if s.len() > 0 {
        lemma_sort_elems_size(s.drop_last());
        lemma_ins_elem_size(sort_elems(s.drop_last()), s.last());
    }
}

pub proof fn lemma_sort_prods_size(s: Seq<ProdV>)
    ensures
        sort_prods(s).len() == s.len(),
        size_pseq(sort_prods(s)) == size_pseq(s),
    decreases s.len(),
{
    if s.len() > 0 {
        lemma_sort_prods_size(s.drop_last());
        lemma_ins_prod_size(sort_prods(s.drop_last()), s.last());
    }
}

// ---------------------------------------------------------------------------
// The renaming evidence table.
// ---------------------------------------------------------------------------

/// One recorded table: keys in first-recording order, each with every
/// candidate it was ever paired with.
pub type TableV = Seq<(Seq<char>, Seq<Seq<char>>)>;

#[verifier::ext_equal]
pub struct NamesV {
    pub variables: TableV,
    pub functions: TableV,
}

pub open spec fn find_from(m: TableV, k: Seq<char>, i: int) -> int
    decreases m.len() - i,
{
    if i < 0 || i >= m.len() {
        -1
    } else if m[i].0 == k {
        i
    } else {
        find_from(m, k, i + 1)
    }
}

pub open spec fn find_key(m: TableV, k: Seq<char>) -> int {
    find_from(m, k, 0)
}

/// Append candidate `v` to the list recorded for key `k`.
pub open spec fn record_spec(m: TableV, k: Seq<char>, v: Seq<char>) -> TableV {
    let i = find_key(m, k);
    if 0 <= i < m.len() {
        m.update(i, (m[i].0, m[i].1.push(v)))
    } else {
        m.push((k, seq![v]))
    }
}

pub open spec fn record_var(nm: NamesV, k: Seq<char>, v: Seq<char>) -> NamesV {
    NamesV { variables: record_spec(nm.variables, k, v), ..nm }
}

pub open spec fn record_fun(nm: NamesV, k: Seq<char>, v: Seq<char>) -> NamesV {
    NamesV { functions: record_spec(nm.functions, k, v), ..nm }
}

/// Every candidate recorded for a key equals the first one.
pub open spec fn list_constant(l: Seq<Seq<char>>) -> bool {
    forall|j: int| 0 <= j < l.len() ==> #[trigger] l[j] == l[0]
}

pub open spec fn table_consistent(m: TableV) -> bool {
    forall|i: int| 0 <= i < m.len() ==> list_constant(#[trigger] m[i].1)
}

/// The consistency check a caller must run before trusting a match: every
/// candidate list recorded for one left-hand name holds a single value.
/// Injectivity across keys (two left-hand names never sharing one
/// right-hand name) is deliberately not demanded: under the weak
/// sorted-scan comparison above, a successful scan pairs every later
/// entry with the first sorted entry, so even a sum of two distinct
/// variables compared against itself records both keys against one name;
/// demanding injectivity would make the normalization fixpoint detection
/// refuse such states forever.
pub open spec fn check_spec(nm: NamesV) -> bool {
    table_consistent(nm.variables) && table_consistent(nm.functions)
}

pub open spec fn empty_names() -> NamesV {
    NamesV { variables: Seq::empty(), functions: Seq::empty() }
}

// ---------------------------------------------------------------------------
// The comparison, threading the evidence table functionally.
// ---------------------------------------------------------------------------

pub open spec fn ms_elem(a: ElemV, b: ElemV, nm: NamesV) -> (bool, NamesV)
    decreases size_elem(a), 9int, 0int,
{
    if a.sign != b.sign {
        (false, nm)
    } else {
        ms_noe(a.body, b.body, nm)
    }
}

pub open spec fn ms_noe(a: NoeV, b: NoeV, nm: NamesV) -> (bool, NamesV)
    decreases size_noe(a), 8int, 0int,
{
    match (a, b) {
        (NoeV::Node(x), NoeV::Node(y)) => ms_node(x, y, nm),
        (NoeV::Expression(x), NoeV::Expression(y)) => vp_stage(x.products, y.products, nm),
        _ => (false, nm),
    }
}

pub open spec fn ms_node(a: NodeV, b: NodeV, nm: NamesV) -> (bool, NamesV)
    decreases size_node(a), 7int, 0int,
{
    match a {
        NodeV::Number(x) => (b matches NodeV::Number(y) && x.eq_spec(y), nm),
        NodeV::Variable(l) => match b {
            NodeV::Variable(r) => (true, record_var(nm, l, r)),
            _ => (true, nm),
        },
        NodeV::Power { base: b1, power: p1 } => match b {
            NodeV::Power { base: b2, power: p2 } => {
                let x = ms_elem(*b1, *b2, nm);
                if x.0 {
                    ms_elem(*p1, *p2, x.1)
                } else {
                    (false, x.1)
                }
            },
            _ => (false, nm),
        },
        NodeV::Modulo { lhs: l1, rhs: r1 } => match b {
            NodeV::Modulo { lhs: l2, rhs: r2 } => {
                let x = ms_elem(*l1, *l2, nm);
                if x.0 {
                    ms_elem(*r1, *r2, x.1)
                } else {
                    (false, x.1)
                }
            },
            _ => (false, nm),
        },
        NodeV::Factorial { child: c1 } => match b {
            NodeV::Factorial { child: c2 } => ms_elem(*c1, *c2, nm),
            _ => (false, nm),
        },
        NodeV::Function { name: l, arguments: la } => match b {
            NodeV::Function { name: r, arguments: ra } => {
                let x = ve_stage(la, ra, nm);
                if x.0 {
                    (true, record_fun(x.1, l, r))
                } else {
                    (false, x.1)
                }
            },
            _ => (false, nm),
        },
    }
}

pub open spec fn ms_prod(a: ProdV, b: ProdV, nm: NamesV) -> (bool, NamesV)
    decreases size_prod(a), 6int, 0int,
{
    let x = ve_stage(a.numerator, b.numerator, nm);
    let y = ve_stage(a.denominator, b.denominator, x.1);
    (x.0 && y.0, y.1)
}

/// The unordered comparison of element lists: equal lengths, empty lists
/// match, otherwise both sides are sorted and scanned for a matching pair.
pub open spec fn ve_stage(a: Seq<ElemV>, b: Seq<ElemV>, nm: NamesV) -> (bool, NamesV)
    decreases size_eseq(a) + 1, 5int, 0int,
{
    if a.len() != b.len() {
        (false, nm)
    } else if a.len() == 0 {
        (true, nm)
    } else {
        proof {
            lemma_sort_elems_size(a);
        }
        ve_outer(sort_elems(a), sort_elems(b), 0, false, nm)
    }
}

pub open spec fn ve_outer(sa: Seq<ElemV>, sb: Seq<ElemV>, i: int, res: bool, nm: NamesV) -> (
    bool,
    NamesV,
)
    decreases size_eseq(sa) + 1, 4int, sa.len() - i,
{
    if i < 0 || i >= sa.len() || sb.len() == 0 {
        (res, nm)
    } else if res {
        let x = ({
            proof {
                lemma_size_eseq_elem(sa, i);
            }
            ms_elem(sa[i], sb[0], nm)
        });
        ve_outer(sa, sb, i + 1, true, x.1)
    } else {
        let x = ({
            proof {
                lemma_size_eseq_elem(sa, i);
            }
            ve_inner(sa[i], sb, 0, nm)
        });
        ve_outer(sa, sb, i + 1, x.0, x.1)
    }
}

pub open spec fn ve_inner(left: ElemV, sb: Seq<ElemV>, j: int, nm: NamesV) -> (bool, NamesV)
    decreases size_elem(left) + 1, 3int, sb.len() - j,
{
    if j < 0 || j >= sb.len() {
        (false, nm)
    } else {
        let x = ms_elem(left, sb[j], nm);
        if x.0 {
            (true, x.1)
        } else {
            ve_inner(left, sb, j + 1, x.1)
        }
    }
}

/// The unordered comparison of product lists.
pub open spec fn vp_stage(a: Seq<ProdV>, b: Seq<ProdV>, nm: NamesV) -> (bool, NamesV)
    decreases size_pseq(a) + 1, 5int, 0int,
{
    if a.len() != b.len() {
        (false, nm)
    } else if a.len() == 0 {
        (true, nm)
    } else {
        proof {
            lemma_sort_prods_size(a);
        }
        vp_outer(sort_prods(a), sort_prods(b), 0, false, nm)
    }
}

pub open spec fn vp_outer(sa: Seq<ProdV>, sb: Seq<ProdV>, i: int, res: bool, nm: NamesV) -> (
    bool,
    NamesV,
)
    decreases size_pseq(sa) + 1, 4int, sa.len() - i,
{
    if i < 0 || i >= sa.len() || sb.len() == 0 {
        (res, nm)
    } else if res {
        let x = ({
            proof {
                lemma_size_pseq_elem(sa, i);
            }
            ms_prod(sa[i], sb[0], nm)
        });
        vp_outer(sa, sb, i + 1, true, x.1)
    } else {
        let x = ({
            proof {
                lemma_size_pseq_elem(sa, i);
            }
            vp_inner(sa[i], sb, 0, nm)
        });
        vp_outer(sa, sb, i + 1, x.0, x.1)
    }
}

pub open spec fn vp_inner(left: ProdV, sb: Seq<ProdV>, j: int, nm: NamesV) -> (bool, NamesV)
    decreases size_prod(left) + 1, 3int, sb.len() - j,
{
    if j < 0 || j >= sb.len() {
        (false, nm)
    } else {
        let x = ms_prod(left, sb[j], nm);
        if x.0 {
            (true, x.1)
        } else {
            vp_inner(left, sb, j + 1, x.1)
        }
    }
}

/// Equation comparison: equal side counts, then side by side in order,
/// stopping at the first mismatch.
pub open spec fn ms_eq(a: Seq<ElemV>, b: Seq<ElemV>, nm: NamesV) -> (bool, NamesV)
    decreases size_eseq(a) + 1, 5int, 0int,
{
    if a.len() != b.len() {
        (false, nm)
    } else {
        eq_loop(a, b, 0, nm)
    }
}

pub open spec fn eq_loop(a: Seq<ElemV>, b: Seq<ElemV>, i: int, nm: NamesV) -> (bool, NamesV)
    decreases size_eseq(a) + 1, 4int, a.len() - i,
{
    if i < 0 || i >= a.len() {
        (true, nm)
    } else {
        let x = ({
            proof {
                lemma_size_eseq_elem(a, i);
            }
            ms_elem(a[i], b[i], nm)
        });
        if x.0 {
            eq_loop(a, b, i + 1, x.1)
        } else {
            (false, x.1)
        }
    }
}

// ---------------------------------------------------------------------------
// The executable evidence table.
// ---------------------------------------------------------------------------

/// The recorded renaming evidence: for each left-hand name, every
/// right-hand candidate it was compared against.
#[derive(Debug)]
pub struct IsSameNames {
    pub variables: Vec<(String, Vec<String>)>,
    pub functions: Vec<(String, Vec<String>)>,
}

pub open spec fn table_view(v: Seq<(String, Vec<String>)>) -> TableV {
    Seq::new(
        v.len(),
        |i: int| (v[i].0@, Seq::new(v[i].1@.len(), |j: int| v[i].1@[j]@)),
    )
}

impl View for IsSameNames {
    type V = NamesV;

    open spec fn view(&self) -> NamesV {
        NamesV { variables: table_view(self.variables@), functions: table_view(self.functions@) }
    }
}

/// `find_key` returns the first index holding the key, or `-1`.
proof fn lemma_find_from(m: TableV, k: Seq<char>, i: int)
    requires
        0 <= i <= m.len(),
    ensures
        ({
            let r = find_from(m, k, i);
            ||| (r == -1 && forall|j: int| i <= j < m.len() ==> (#[trigger] m[j]).0 != k)
            ||| (i <= r < m.len() && m[r].0 == k && forall|j: int|
                i <= j < r ==> (#[trigger] m[j]).0 != k)
        }),
    decreases m.len() - i,
{
    if i < m.len() && m[i].0 != k {
        lemma_find_from(m, k, i + 1);
    }
}

fn record_table(m: &mut Vec<(String, Vec<String>)>, k: &String, v: &String)
    ensures
        table_view(final(m)@) == record_spec(table_view(old(m)@), k@, v@),
{
    let ghost mv = table_view(m@);
    proof {
        lemma_find_from(mv, k@, 0);
    }
    let n = m.len();
    let mut i: usize = 0;
    while i < n
        invariant
            n == m@.len(),
            mv == table_view(m@),
            mv == table_view(old(m)@),
            mv.len() == n,
            0 <= i <= n,
            forall|j: int| 0 <= j < i ==> (#[trigger] mv[j]).0 != k@,
        decreases n - i,
    {
        proof {
            assert(mv[i as int] == table_view(m@)[i as int]);
        }
        if m[i].0 == *k {
            proof {
                assert(mv[i as int].0 == k@);
                lemma_find_from(mv, k@, 0);
                assert(find_key(mv, k@) == i as int) by {
                    let r = find_from(mv, k@, 0);
                    if r == -1 {
                        assert(mv[i as int].0 != k@);
                    } else if r < i as int {
                        assert(mv[r].0 != k@);
                    } else if r > i as int {
                        assert(mv[i as int].0 != k@);
                    }
                }
            }
            let key2 = m[i].0.clone();
            let mut list2 = crate::ast::element::dup_string_vec(&m[i].1);
            let ghost list0 = list2@;
            list2.push(v.clone());
            let ghost old_m = m@;
            m.set(i, (key2, list2));
            proof {
                assert(table_view(m@).len() == record_spec(mv, k@, v@).len());
                assert(table_view(m@) =~= record_spec(mv, k@, v@)) by {
                    assert forall|a: int| 0 <= a < m@.len() implies table_view(m@)[a]
                        == record_spec(mv, k@, v@)[a] by {
                        if a == i as int {
                            assert(m@[a].1@ == list0.push(*v));
                            assert(table_view(m@)[a].1 =~= mv[a].1.push(v@));
                            assert(table_view(m@)[a] == (mv[a].0, mv[a].1.push(v@)));
                        } else {
                            assert(m@[a] == old_m[a]);
                        }
                    }
                }
            }
            return;
        }
        i += 1;
    }
    proof {
        lemma_find_from(mv, k@, 0);
        assert(find_key(mv, k@) == -1) by {
            let r = find_from(mv, k@, 0);
            if r != -1 {
                assert(mv[r].0 != k@);
            }
        }
    }
    let mut list: Vec<String> = Vec::new();
    list.push(v.clone());
    let ghost old_m = m@;
    m.push((k.clone(), list));
    proof {
        assert(table_view(m@).len() == record_spec(mv, k@, v@).len());
        assert(table_view(m@) =~= record_spec(mv, k@, v@)) by {
            assert forall|a: int| 0 <= a < m@.len() implies table_view(m@)[a] == record_spec(
                mv,
                k@,
                v@,
            )[a] by {
                if a == m@.len() - 1 {
                    assert(m@[a].0@ == k@);
                    assert(m@[a].1@.len() == 1);
                    assert(m@[a].1@[0]@ == v@);
                    assert(table_view(m@)[a].1 =~= seq![v@]);
                } else {
                    assert(m@[a] == old_m[a]);
                }
            }
        }
    }
}

fn table_consistent_exec(m: &Vec<(String, Vec<String>)>) -> (r: bool)
    ensures
        r == table_consistent(table_view(m@)),
{
    let ghost mv = table_view(m@);
    let n = m.len();
    let mut i: usize = 0;
    while i < n
        invariant
            n == m@.len(),
            mv == table_view(m@),
            mv.len() == n,
            0 <= i <= n,
            forall|j: int| 0 <= j < i ==> list_constant((#[trigger] mv[j]).1),
        decreases n - i,
    {
        proof {
            assert(mv[i as int] == table_view(m@)[i as int]);
        }
        let list = &m[i].1;
        let ln = list.len();
        let mut j: usize = 0;
        while j < ln
            invariant
                i < n,
                n == m@.len(),
                mv == table_view(m@),
                mv.len() == n,
                ln == list@.len(),
                list == &m@[i as int].1,
                mv[i as int].1.len() == ln,
                forall|a: int| 0 <= a < ln ==> mv[i as int].1[a] == list@[a]@,
                0 <= j <= ln,
                forall|a: int| 0 <= a < j ==> #[trigger] mv[i as int].1[a] == mv[i as int].1[0],
            decreases ln - j,
        {
            if !(list[j] == list[0]) {
                proof {
                    assert(mv[i as int].1[j as int] != mv[i as int].1[0]);
                    assert(!list_constant(mv[i as int].1));
                }
                return false;
            }
            j += 1;
        }
        proof {
            assert(list_constant(mv[i as int].1));
        }
        i += 1;
    }
    true
}

impl IsSameNames {
    pub fn new() -> (r: IsSameNames)
        ensures
            r@ == empty_names(),
    {
        let r = IsSameNames { variables: Vec::new(), functions: Vec::new() };
        proof {
            assert(r@ =~~= empty_names());
        }
        r
    }

    /// The consistency check: every candidate list holds one value.
    pub fn check(&self) -> (r: bool)
        ensures
            r == check_spec(self@),
    {
        let a = table_consistent_exec(&self.variables);
        let b = table_consistent_exec(&self.functions);
        a && b
    }
}

// ---------------------------------------------------------------------------
// Executable structural comparison.
// ---------------------------------------------------------------------------

fn cmp_rat_exec(a: &Rational, b: &Rational) -> (r: i8)
    ensures
        r as int == cmp_rat(*a, *b),
{
    proof {
        crate::rational::lemma_i64_mul_fits_i128(a.num as int, b.den as int);
        crate::rational::lemma_i64_mul_fits_i128(b.num as int, a.den as int);
    }
    let l: i128 = (a.num as i128) * (b.den as i128);
    let r: i128 = (b.num as i128) * (a.den as i128);
    if l < r {
        -1
    } else if l > r {
        1
    } else {
        0
    }
}

fn cmp_chars_exec(a: &str, b: &str) -> (r: i8)
    ensures
        r as int == cmp_chars(a@, b@),
{
    let an = a.unicode_len();
    let bn = b.unicode_len();
    let mut i: usize = 0;
    proof {
        assert(a@.skip(0) =~= a@);
        assert(b@.skip(0) =~= b@);
    }
    while i < an || i < bn
        invariant
            an == a@.len(),
            bn == b@.len(),
            0 <= i,
            i <= an || i <= bn,
            i <= an && i <= bn,
            cmp_chars(a@, b@) == cmp_chars(a@.skip(i as int), b@.skip(i as int)),
        decreases an + bn - i - i,
    {
        let ghost av = a@.skip(i as int);
        let ghost bv = b@.skip(i as int);
        if i >= an {
            proof {
                assert(av.len() == 0 && bv.len() > 0);
            }
            return -1;
        }
        if i >= bn {
            proof {
                assert(bv.len() == 0 && av.len() > 0);
            }
            return 1;
        }
        let ca = a.get_char(i);
        let cb = b.get_char(i);
        proof {
            assert(av[0] == a@[i as int]);
            assert(bv[0] == b@[i as int]);
        }
        if (ca as u32) < (cb as u32) {
            return -1;
        }
        if (ca as u32) > (cb as u32) {
            return 1;
        }
        proof {
            assert(av.drop_first() =~= a@.skip(i as int + 1));
            assert(bv.drop_first() =~= b@.skip(i as int + 1));
        }
        i += 1;
    }
    proof {
        assert(a@.skip(i as int).len() == 0 && b@.skip(i as int).len() == 0);
    }
    0
}

fn node_rank_exec(n: &Node) -> (r: i8)
    ensures
        r as int == node_rank(n@),
{
    match n {
        Node::Number(_) => 0,
        Node::Variable(_) => 1,
        Node::Power { .. } => 2,
        Node::Modulo { .. } => 3,
        Node::Factorial { .. } => 4,
        Node::Function { .. } => 5,
    }
}

fn cmp_elem_exec(a: &Element, b: &Element) -> (r: i8)
    ensures
        r as int == cmp_elem(a@, b@),
    decreases size_elem(a@), 3int,
{
    let c: i8 = match (a.sign, b.sign) {
        (Sign::Positive, Sign::Negative) => -1,
        (Sign::Negative, Sign::Positive) => 1,
        _ => 0,
    };
    if c != 0 {
        return c;
    }
    match (&a.node_or_expression, &b.node_or_expression) {
        (NodeOrExpression::Node(x), NodeOrExpression::Node(y)) => cmp_node_exec(x, y),
        (NodeOrExpression::Node(_), NodeOrExpression::Expression(_)) => -1,
        (NodeOrExpression::Expression(_), NodeOrExpression::Node(_)) => 1,
        (NodeOrExpression::Expression(x), NodeOrExpression::Expression(y)) => {
            proof {
                lemma_view_prod_seq(x.products@);
            }
            cmp_pseq_exec(&x.products, &y.products)
        },
    }
}

fn cmp_node_exec(a: &Node, b: &Node) -> (r: i8)
    ensures
        r as int == cmp_node(a@, b@),
    decreases size_node(a@), 1int,
{
    let ra = node_rank_exec(a);
    let rb = node_rank_exec(b);
    if ra < rb {
        return -1;
    }
    if ra > rb {
        return 1;
    }
    match (a, b) {
        (Node::Number(x), Node::Number(y)) => cmp_rat_exec(x, y),
        (Node::Variable(x), Node::Variable(y)) => cmp_chars_exec(x.as_str(), y.as_str()),
        (Node::Power { base: b1, power: p1 }, Node::Power { base: b2, power: p2 }) => {
            let c = cmp_elem_exec(b1, b2);
            if c != 0 {
                c
            } else {
                cmp_elem_exec(p1, p2)
            }
        },
        (Node::Modulo { lhs: l1, rhs: r1 }, Node::Modulo { lhs: l2, rhs: r2 }) => {
            let c = cmp_elem_exec(l1, l2);
            if c != 0 {
                c
            } else {
                cmp_elem_exec(r1, r2)
            }
        },
        (Node::Factorial { child: c1 }, Node::Factorial { child: c2 }) => cmp_elem_exec(c1, c2),
        (
            Node::Function { name: n1, arguments: a1 },
            Node::Function { name: n2, arguments: a2 },
        ) => {
            let c = cmp_chars_exec(n1.as_str(), n2.as_str());
            if c != 0 {
                c
            } else {
                proof {
                    lemma_view_elem_seq(a1@);
                }
                cmp_eseq_exec(a1, a2)
            }
        },
        _ => {
            proof {
                assert(false);
            }
            0
        },
    }
}

fn cmp_eseq_exec(a: &Vec<Element>, b: &Vec<Element>) -> (r: i8)
    ensures
        r as int == cmp_eseq(view_elem_seq(a@), view_elem_seq(b@)),
    decreases size_eseq(view_elem_seq(a@)), 0int,
{
    let ghost va = view_elem_seq(a@);
    let ghost vb = view_elem_seq(b@);
    proof {
        lemma_view_elem_seq(a@);
        lemma_view_elem_seq(b@);
    }
    let an = a.len();
    let bn = b.len();
    let mut i: usize = 0;
    proof {
        assert(va.skip(0) =~= va);
        assert(vb.skip(0) =~= vb);
    }
    while i < an || i < bn
        invariant
            an == a@.len(),
            bn == b@.len(),
            va == view_elem_seq(a@),
            vb == view_elem_seq(b@),
            va.len() == an,
            vb.len() == bn,
            forall|j: int| 0 <= j < an ==> va[j] == view_element(a@[j]),
            forall|j: int| 0 <= j < bn ==> vb[j] == view_element(b@[j]),
            0 <= i,
            i <= an && i <= bn,
            cmp_eseq(va, vb) == cmp_eseq(va.skip(i as int), vb.skip(i as int)),
        decreases an + bn - i - i,
    {
        let ghost sa = va.skip(i as int);
        let ghost sb = vb.skip(i as int);
        if i >= an {
            proof {
                assert(sa.len() == 0 && sb.len() > 0);
            }
            return -1;
        }
        if i >= bn {
            proof {
                assert(sb.len() == 0 && sa.len() > 0);
            }
            return 1;
        }
        proof {
            assert(sa[0] == va[i as int]);
            assert(sb[0] == vb[i as int]);
            assert(size_elem(sa[0]) < size_eseq(sa)) by {
                lemma_size_eseq_elem(sa, 0);
            }
            lemma_skip_size(va, i as int);
        }
        let c = cmp_elem_exec(&a[i], &b[i]);
        if c != 0 {
            return c;
        }
        proof {
            assert(sa.drop_first() =~= va.skip(i as int + 1));
            assert(sb.drop_first() =~= vb.skip(i as int + 1));
        }
        i += 1;
    }
    proof {
        assert(va.skip(i as int).len() == 0 && vb.skip(i as int).len() == 0);
    }
    0
}

/// A suffix never weighs more than the whole.
proof fn lemma_skip_size(s: Seq<ElemV>, i: int)
    requires
        0 <= i <= s.len(),
    ensures
        size_eseq(s.skip(i)) <= size_eseq(s),
    decreases i,
{
    if i == 0 {
        assert(s.skip(0) =~= s);
    } else {
        lemma_skip_size(s, i - 1);
        assert(size_eseq(s.skip(i)) <= size_eseq(s.skip(i - 1))) by {
            if s.skip(i - 1).len() > 0 {
                lemma_size_drop_first(s.skip(i - 1));
                assert(s.skip(i - 1).drop_first() =~= s.skip(i));
            } else {
                assert(s.skip(i) =~= s.skip(i - 1));
            }
        }
    }
}

proof fn lemma_skip_size_pseq(s: Seq<ProdV>, i: int)
    requires
        0 <= i <= s.len(),
    ensures
        size_pseq(s.skip(i)) <= size_pseq(s),
    decreases i,
{
    if i == 0 {
        assert(s.skip(0) =~= s);
    } else {
        lemma_skip_size_pseq(s, i - 1);
        assert(size_pseq(s.skip(i)) <= size_pseq(s.skip(i - 1))) by {
            if s.skip(i - 1).len() > 0 {
                lemma_size_pseq_drop_first(s.skip(i - 1));
                assert(s.skip(i - 1).drop_first() =~= s.skip(i));
            } else {
                assert(s.skip(i) =~= s.skip(i - 1));
            }
        }
    }
}

fn cmp_prod_exec(a: &Product, b: &Product) -> (r: i8)
    ensures
        r as int == cmp_prod(view_product(*a), view_product(*b)),
    decreases size_prod(view_product(*a)), 1int,
{
    let c = cmp_eseq_exec(&a.numerator, &b.numerator);
    if c != 0 {
        c
    } else {
        cmp_eseq_exec(&a.denominator, &b.denominator)
    }
}

fn cmp_pseq_exec(a: &Vec<Product>, b: &Vec<Product>) -> (r: i8)
    ensures
        r as int == cmp_pseq(view_prod_seq(a@), view_prod_seq(b@)),
    decreases size_pseq(view_prod_seq(a@)), 0int,
{
    let ghost va = view_prod_seq(a@);
    let ghost vb = view_prod_seq(b@);
    proof {
        lemma_view_prod_seq(a@);
        lemma_view_prod_seq(b@);
    }
    let an = a.len();
    let bn = b.len();
    let mut i: usize = 0;
    proof {
        assert(va.skip(0) =~= va);
        assert(vb.skip(0) =~= vb);
    }
    while i < an || i < bn
        invariant
            an == a@.len(),
            bn == b@.len(),
            va == view_prod_seq(a@),
            vb == view_prod_seq(b@),
            va.len() == an,
            vb.len() == bn,
            forall|j: int| 0 <= j < an ==> va[j] == view_product(a@[j]),
            forall|j: int| 0 <= j < bn ==> vb[j] == view_product(b@[j]),
            0 <= i,
            i <= an && i <= bn,
            cmp_pseq(va, vb) == cmp_pseq(va.skip(i as int), vb.skip(i as int)),
        decreases an + bn - i - i,
    {
        let ghost sa = va.skip(i as int);
        let ghost sb = vb.skip(i as int);
        if i >= an {
            proof {
                assert(sa.len() == 0 && sb.len() > 0);
            }
            return -1;
        }
        if i >= bn {
            proof {
                assert(sb.len() == 0 && sa.len() > 0);
            }
            return 1;
        }
        proof {
            assert(sa[0] == va[i as int]);
            assert(sb[0] == vb[i as int]);
            assert(size_prod(sa[0]) < size_pseq(sa)) by {
                lemma_size_pseq_elem(sa, 0);
            }
            lemma_skip_size_pseq(va, i as int);
        }
        let c = cmp_prod_exec(&a[i], &b[i]);
        if c != 0 {
            return c;
        }
        proof {
            assert(sa.drop_first() =~= va.skip(i as int + 1));
            assert(sb.drop_first() =~= vb.skip(i as int + 1));
        }
        i += 1;
    }
    proof {
        assert(va.skip(i as int).len() == 0 && vb.skip(i as int).len() == 0);
    }
    0
}

// ---------------------------------------------------------------------------
// Executable stable insertion sort.
// ---------------------------------------------------------------------------

/// Inserting before the first strictly-greater position is exactly `ins_elem`.
proof fn lemma_ins_elem_shape(s: Seq<ElemV>, x: ElemV, p: int)
    requires
        0 <= p <= s.len(),
        forall|k: int| 0 <= k < p ==> cmp_elem(x, #[trigger] s[k]) >= 0,
        p < s.len() ==> cmp_elem(x, s[p]) < 0,
    ensures
        ins_elem(s, x) == s.subrange(0, p).add(seq![x]).add(s.subrange(p, s.len() as int)),
    decreases p,
{
    if s.len() == 0 {
        assert(ins_elem(s, x) == seq![x]);
        assert(s.subrange(0, 0).add(seq![x]).add(s.subrange(0, 0)) =~= seq![x]);
    } else if p == 0 {
        assert(ins_elem(s, x) == seq![x].add(s));
        assert(s.subrange(0, 0).add(seq![x]).add(s.subrange(0, s.len() as int)) =~= seq![x].add(
            s,
        ));
    } else {
        assert(cmp_elem(x, s[0]) >= 0);
        let t = s.drop_first();
        lemma_ins_elem_shape(t, x, p - 1);
        assert(forall|k: int| 0 <= k < p - 1 ==> t[k] == s[k + 1]);
        assert(ins_elem(s, x) == seq![s[0]].add(ins_elem(t, x)));
        assert(t.subrange(0, p - 1) =~= s.subrange(1, p));
        assert(t.subrange(p - 1, t.len() as int) =~= s.subrange(p, s.len() as int));
        assert(seq![s[0]].add(
            s.subrange(1, p).add(seq![x]).add(s.subrange(p, s.len() as int)),
        ) =~= s.subrange(0, p).add(seq![x]).add(s.subrange(p, s.len() as int)));
    }
}

proof fn lemma_ins_prod_shape(s: Seq<ProdV>, x: ProdV, p: int)
    requires
        0 <= p <= s.len(),
        forall|k: int| 0 <= k < p ==> cmp_prod(x, #[trigger] s[k]) >= 0,
        p < s.len() ==> cmp_prod(x, s[p]) < 0,
    ensures
        ins_prod(s, x) == s.subrange(0, p).add(seq![x]).add(s.subrange(p, s.len() as int)),
    decreases p,
{
    if s.len() == 0 {
        assert(ins_prod(s, x) == seq![x]);
        assert(s.subrange(0, 0).add(seq![x]).add(s.subrange(0, 0)) =~= seq![x]);
    } else if p == 0 {
        assert(ins_prod(s, x) == seq![x].add(s));
        assert(s.subrange(0, 0).add(seq![x]).add(s.subrange(0, s.len() as int)) =~= seq![x].add(
            s,
        ));
    } else {
        assert(cmp_prod(x, s[0]) >= 0);
        let t = s.drop_first();
        lemma_ins_prod_shape(t, x, p - 1);
        assert(forall|k: int| 0 <= k < p - 1 ==> t[k] == s[k + 1]);
        assert(ins_prod(s, x) == seq![s[0]].add(ins_prod(t, x)));
        assert(t.subrange(0, p - 1) =~= s.subrange(1, p));
        assert(t.subrange(p - 1, t.len() as int) =~= s.subrange(p, s.len() as int));
        assert(seq![s[0]].add(
            s.subrange(1, p).add(seq![x]).add(s.subrange(p, s.len() as int)),
        ) =~= s.subrange(0, p).add(seq![x]).add(s.subrange(p, s.len() as int)));
    }
}

fn insert_elem(out: &mut Vec<Element>, x: Element)
    ensures
        view_elem_seq(final(out)@) == ins_elem(view_elem_seq(old(out)@), view_element(x)),
{
    let ghost sv = view_elem_seq(out@);
    let ghost xv = view_element(x);
    proof {
        lemma_view_elem_seq(out@);
    }
    let n = out.len();
    let mut p: usize = 0;
    let mut stop = false;
    while p < n && !stop
        invariant
            n == out@.len(),
            sv == view_elem_seq(out@),
            sv == view_elem_seq(old(out)@),
            out@ == old(out)@,
            sv.len() == n,
            forall|j: int| 0 <= j < n ==> sv[j] == view_element(out@[j]),
            xv == view_element(x),
            0 <= p <= n,
            forall|k: int| 0 <= k < p ==> cmp_elem(xv, #[trigger] sv[k]) >= 0,
            stop ==> p < n && cmp_elem(xv, sv[p as int]) < 0,
        decreases n - p, if stop { 0int } else { 1int },
    {
        let c = cmp_elem_exec(&x, &out[p]);
        if c < 0 {
            stop = true;
        } else {
            p += 1;
        }
    }
    proof {
        lemma_ins_elem_shape(sv, xv, p as int);
    }
    let ghost before = out@;
    out.insert(p, x);
    proof {
        lemma_view_elem_seq(out@);
        assert(out@ =~= before.subrange(0, p as int).add(seq![x]).add(
            before.subrange(p as int, before.len() as int),
        ));
        assert(view_elem_seq(out@) =~= sv.subrange(0, p as int).add(seq![xv]).add(
            sv.subrange(p as int, sv.len() as int),
        )) by {
            lemma_view_elem_seq(before);
        }
    }
}

fn insert_prod(out: &mut Vec<Product>, x: Product)
    ensures
        view_prod_seq(final(out)@) == ins_prod(view_prod_seq(old(out)@), view_product(x)),
{
    let ghost sv = view_prod_seq(out@);
    let ghost xv = view_product(x);
    proof {
        lemma_view_prod_seq(out@);
    }
    let n = out.len();
    let mut p: usize = 0;
    let mut stop = false;
    while p < n && !stop
        invariant
            n == out@.len(),
            sv == view_prod_seq(out@),
            sv == view_prod_seq(old(out)@),
            out@ == old(out)@,
            sv.len() == n,
            forall|j: int| 0 <= j < n ==> sv[j] == view_product(out@[j]),
            xv == view_product(x),
            0 <= p <= n,
            forall|k: int| 0 <= k < p ==> cmp_prod(xv, #[trigger] sv[k]) >= 0,
            stop ==> p < n && cmp_prod(xv, sv[p as int]) < 0,
        decreases n - p, if stop { 0int } else { 1int },
    {
        let c = cmp_prod_exec(&x, &out[p]);
        if c < 0 {
            stop = true;
        } else {
            p += 1;
        }
    }
    proof {
        lemma_ins_prod_shape(sv, xv, p as int);
    }
    let ghost before = out@;
    out.insert(p, x);
    proof {
        lemma_view_prod_seq(out@);
        assert(out@ =~= before.subrange(0, p as int).add(seq![x]).add(
            before.subrange(p as int, before.len() as int),
        ));
        assert(view_prod_seq(out@) =~= sv.subrange(0, p as int).add(seq![xv]).add(
            sv.subrange(p as int, sv.len() as int),
        )) by {
            lemma_view_prod_seq(before);
        }
    }
}

fn sort_elems_exec(v: &Vec<Element>) -> (r: Vec<Element>)
    ensures
        view_elem_seq(r@) == sort_elems(view_elem_seq(v@)),
{
    let ghost sv = view_elem_seq(v@);
    proof {
        lemma_view_elem_seq(v@);
        assert(sv.subrange(0, 0) =~= Seq::<ElemV>::empty());
    }
    let mut out: Vec<Element> = Vec::new();
    let n = v.len();
    let mut i: usize = 0;
    proof {
        assert(view_elem_seq(out@) =~= Seq::<ElemV>::empty());
    }
    while i < n
        invariant
            n == v@.len(),
            sv == view_elem_seq(v@),
            sv.len() == n,
            forall|j: int| 0 <= j < n ==> sv[j] == view_element(v@[j]),
            0 <= i <= n,
            view_elem_seq(out@) == sort_elems(sv.subrange(0, i as int)),
        decreases n - i,
    {
        proof {
            assert(sv.subrange(0, i as int + 1).drop_last() =~= sv.subrange(0, i as int));
            assert(sv.subrange(0, i as int + 1).last() == sv[i as int]);
        }
        insert_elem(&mut out, v[i].duplicate());
        i += 1;
    }
    proof {
        assert(sv.subrange(0, n as int) =~= sv);
    }
    out
}

fn sort_prods_exec(v: &Vec<Product>) -> (r: Vec<Product>)
    ensures
        view_prod_seq(r@) == sort_prods(view_prod_seq(v@)),
{
    let ghost sv = view_prod_seq(v@);
    proof {
        lemma_view_prod_seq(v@);
        assert(sv.subrange(0, 0) =~= Seq::<ProdV>::empty());
    }
    let mut out: Vec<Product> = Vec::new();
    let n = v.len();
    let mut i: usize = 0;
    proof {
        assert(view_prod_seq(out@) =~= Seq::<ProdV>::empty());
    }
    while i < n
        invariant
            n == v@.len(),
            sv == view_prod_seq(v@),
            sv.len() == n,
            forall|j: int| 0 <= j < n ==> sv[j] == view_product(v@[j]),
            0 <= i <= n,
            view_prod_seq(out@) == sort_prods(sv.subrange(0, i as int)),
        decreases n - i,
    {
        proof {
            assert(sv.subrange(0, i as int + 1).drop_last() =~= sv.subrange(0, i as int));
            assert(sv.subrange(0, i as int + 1).last() == sv[i as int]);
        }
        insert_prod(&mut out, dup_prod(&v[i]));
        i += 1;
    }
    proof {
        assert(sv.subrange(0, n as int) =~= sv);
    }
    out
}

// ---------------------------------------------------------------------------
// The executable comparison.
// ---------------------------------------------------------------------------

fn same_elem_exec(a: &Element, b: &Element, names: &mut IsSameNames) -> (r: bool)
    ensures
        ({
            let x = ms_elem(a@, b@, old(names)@);
            r == x.0 && final(names)@ == x.1
        }),
    decreases size_elem(a@), 9int, 0int,
{
    let sign_ok = match (a.sign, b.sign) {
        (Sign::Positive, Sign::Positive) => true,
        (Sign::Negative, Sign::Negative) => true,
        _ => false,
    };
    if !sign_ok {
        return false;
    }
    same_noe_exec(&a.node_or_expression, &b.node_or_expression, names)
}

fn same_noe_exec(a: &NodeOrExpression, b: &NodeOrExpression, names: &mut IsSameNames) -> (r: bool)
    ensures
        ({
            let x = ms_noe(a@, b@, old(names)@);
            r == x.0 && final(names)@ == x.1
        }),
    decreases size_noe(a@), 8int, 0int,
{
    match (a, b) {
        (NodeOrExpression::Node(x), NodeOrExpression::Node(y)) => same_node_exec(x, y, names),
        (NodeOrExpression::Expression(x), NodeOrExpression::Expression(y)) => {
            proof {
                lemma_view_prod_seq(x.products@);
                assert(a@->Expression_0.products == view_prod_seq(x.products@));
                assert(size_noe(a@) == 1 + size_pseq(view_prod_seq(x.products@)));
            }
            vstage_pexec(&x.products, &y.products, names)
        },
        _ => false,
    }
}

fn same_node_exec(a: &Node, b: &Node, names: &mut IsSameNames) -> (r: bool)
    ensures
        ({
            let x = ms_node(a@, b@, old(names)@);
            r == x.0 && final(names)@ == x.1
        }),
    decreases size_node(a@), 7int, 0int,
{
    match (a, b) {
        (Node::Number(x), Node::Number(y)) => x.eq_value(y),
        (Node::Number(_), _) => false,
        (Node::Variable(l), Node::Variable(r2)) => {
            record_table(&mut names.variables, l, r2);
            proof {
                assert(names@ =~~= record_var(old(names)@, l@, r2@));
            }
            true
        },
        (Node::Variable(_), _) => true,
        (Node::Power { base: b1, power: p1 }, Node::Power { base: b2, power: p2 }) => {
            let ok = same_elem_exec(b1, b2, names);
            if ok {
                same_elem_exec(p1, p2, names)
            } else {
                false
            }
        },
        (Node::Power { .. }, _) => false,
        (Node::Modulo { lhs: l1, rhs: r1 }, Node::Modulo { lhs: l2, rhs: r2 }) => {
            let ok = same_elem_exec(l1, l2, names);
            if ok {
                same_elem_exec(r1, r2, names)
            } else {
                false
            }
        },
        (Node::Modulo { .. }, _) => false,
        (Node::Factorial { child: c1 }, Node::Factorial { child: c2 }) => same_elem_exec(
            c1,
            c2,
            names,
        ),
        (Node::Factorial { .. }, _) => false,
        (
            Node::Function { name: n1, arguments: a1 },
            Node::Function { name: n2, arguments: a2 },
        ) => {
            proof {
                lemma_view_elem_seq(a1@);
                assert(a@->Function_arguments == view_elem_seq(a1@));
                assert(size_node(a@) == 1 + size_eseq(view_elem_seq(a1@)));
            }
            let ok = vstage_eexec(a1, a2, names);
            if ok {
                record_table(&mut names.functions, n1, n2);
                proof {
                    assert(names@ =~~= record_fun(
                        ve_stage(view_elem_seq(a1@), view_elem_seq(a2@), old(names)@).1,
                        n1@,
                        n2@,
                    ));
                }
                true
            } else {
                false
            }
        },
        (Node::Function { .. }, _) => false,
    }
}

fn same_prod_exec(a: &Product, b: &Product, names: &mut IsSameNames) -> (r: bool)
    ensures
        ({
            let x = ms_prod(view_product(*a), view_product(*b), old(names)@);
            r == x.0 && final(names)@ == x.1
        }),
    decreases size_prod(view_product(*a)), 6int, 0int,
{
    proof {
        assert(view_product(*a).numerator == view_elem_seq(a.numerator@));
        assert(view_product(*a).denominator == view_elem_seq(a.denominator@));
        assert(size_prod(view_product(*a)) == 1 + size_eseq(view_elem_seq(a.numerator@))
            + size_eseq(view_elem_seq(a.denominator@)));
    }
    let r1 = vstage_eexec(&a.numerator, &b.numerator, names);
    let r2 = vstage_eexec(&a.denominator, &b.denominator, names);
    if r1 && r2 {
        true
    } else {
        false
    }
}

/// Unordered element-list comparison: sorted copies, any matching cross pair.
fn vstage_eexec(a: &Vec<Element>, b: &Vec<Element>, names: &mut IsSameNames) -> (r: bool)
    ensures
        ({
            let x = ve_stage(view_elem_seq(a@), view_elem_seq(b@), old(names)@);
            r == x.0 && final(names)@ == x.1
        }),
    decreases size_eseq(view_elem_seq(a@)) + 1, 5int, 0int,
{
    let ghost va = view_elem_seq(a@);
    let ghost vb = view_elem_seq(b@);
    proof {
        lemma_view_elem_seq(a@);
        lemma_view_elem_seq(b@);
    }
    if a.len() != b.len() {
        return false;
    }
    if a.len() == 0 {
        return true;
    }
    let sa = sort_elems_exec(a);
    let sb = sort_elems_exec(b);
    let ghost sav = sort_elems(va);
    let ghost sbv = sort_elems(vb);
    let ghost nm0 = names@;
    proof {
        lemma_view_elem_seq(sa@);
        lemma_view_elem_seq(sb@);
        lemma_sort_elems_size(va);
        lemma_sort_elems_size(vb);
    }
    let n = sa.len();
    let mut result = false;
    let mut i: usize = 0;
    while i < n
        invariant
            n == sa@.len(),
            sa@.len() == sav.len(),
            sb@.len() == sbv.len(),
            sav == view_elem_seq(sa@),
            sbv == view_elem_seq(sb@),
            sav == sort_elems(va),
            sbv == sort_elems(vb),
            va == view_elem_seq(a@),
            size_eseq(sav) == size_eseq(va),
            sbv.len() == sav.len(),
            sav.len() > 0,
            forall|j: int| 0 <= j < sav.len() ==> sav[j] == view_element(sa@[j]),
            forall|j: int| 0 <= j < sbv.len() ==> sbv[j] == view_element(sb@[j]),
            0 <= i <= n,
            ve_outer(sav, sbv, i as int, result, names@) == ve_outer(sav, sbv, 0, false, nm0),
        decreases n - i,
    {
        proof {
            lemma_size_eseq_elem(sav, i as int);
            assert(view_element(sa@[i as int]) == sav[i as int]);
            assert(size_elem(view_element(sa@[i as int])) < size_eseq(view_elem_seq(a@)) + 1);
        }
        if result {
            let _ = same_elem_exec(&sa[i], &sb[0], names);
        } else {
            let ghost nm_in = names@;
            let bn = sb.len();
            let mut j: usize = 0;
            let mut found = false;
            while j < bn && !found
                invariant
                    i < n,
                    n == sa@.len(),
                    bn == sb@.len(),
                    sa@.len() == sav.len(),
                    sb@.len() == sbv.len(),
                    sav == view_elem_seq(sa@),
                    sbv == view_elem_seq(sb@),
                    va == view_elem_seq(a@),
                    size_eseq(sav) == size_eseq(va),
                    forall|k: int| 0 <= k < sav.len() ==> sav[k] == view_element(sa@[k]),
                    forall|k: int| 0 <= k < sbv.len() ==> sbv[k] == view_element(sb@[k]),
                    0 <= j <= bn,
                    !found ==> ve_inner(sav[i as int], sbv, j as int, names@) == ve_inner(
                        sav[i as int],
                        sbv,
                        0,
                        nm_in,
                    ),
                    found ==> (true, names@) == ve_inner(sav[i as int], sbv, 0, nm_in),
                decreases bn - j, if found { 0int } else { 1int },
            {
                proof {
                    lemma_size_eseq_elem(sav, i as int);
                    assert(view_element(sa@[i as int]) == sav[i as int]);
                    assert(size_elem(view_element(sa@[i as int])) < size_eseq(
                        view_elem_seq(a@),
                    ) + 1);
                }
                found = same_elem_exec(&sa[i], &sb[j], names);
                j += 1;
            }
            proof {
                if !found {
                    assert(ve_inner(sav[i as int], sbv, j as int, names@) == (false, names@));
                }
            }
            result = found;
        }
        i += 1;
    }
    proof {
        assert(ve_outer(sav, sbv, n as int, result, names@) == (result, names@));
        assert(ve_stage(va, vb, nm0) == ve_outer(sav, sbv, 0, false, nm0));
    }
    result
}

/// Unordered product-list comparison.
fn vstage_pexec(a: &Vec<Product>, b: &Vec<Product>, names: &mut IsSameNames) -> (r: bool)
    ensures
        ({
            let x = vp_stage(view_prod_seq(a@), view_prod_seq(b@), old(names)@);
            r == x.0 && final(names)@ == x.1
        }),
    decreases size_pseq(view_prod_seq(a@)) + 1, 5int, 0int,
{
    let ghost va = view_prod_seq(a@);
    let ghost vb = view_prod_seq(b@);
    proof {
        lemma_view_prod_seq(a@);
        lemma_view_prod_seq(b@);
    }
    if a.len() != b.len() {
        return false;
    }
    if a.len() == 0 {
        return true;
    }
    let sa = sort_prods_exec(a);
    let sb = sort_prods_exec(b);
    let ghost sav = sort_prods(va);
    let ghost sbv = sort_prods(vb);
    let ghost nm0 = names@;
    proof {
        lemma_view_prod_seq(sa@);
        lemma_view_prod_seq(sb@);
        lemma_sort_prods_size(va);
        lemma_sort_prods_size(vb);
    }
    let n = sa.len();
    let mut result = false;
    let mut i: usize = 0;
    while i < n
        invariant
            n == sa@.len(),
            sa@.len() == sav.len(),
            sb@.len() == sbv.len(),
            sav == view_prod_seq(sa@),
            sbv == view_prod_seq(sb@),
            sav == sort_prods(va),
            sbv == sort_prods(vb),
            va == view_prod_seq(a@),
            size_pseq(sav) == size_pseq(va),
            sbv.len() == sav.len(),
            sav.len() > 0,
            forall|j: int| 0 <= j < sav.len() ==> sav[j] == view_product(sa@[j]),
            forall|j: int| 0 <= j < sbv.len() ==> sbv[j] == view_product(sb@[j]),
            0 <= i <= n,
            vp_outer(sav, sbv, i as int, result, names@) == vp_outer(sav, sbv, 0, false, nm0),
        decreases n - i,
    {
        proof {
            lemma_size_pseq_elem(sav, i as int);
            assert(view_product(sa@[i as int]) == sav[i as int]);
            assert(size_prod(view_product(sa@[i as int])) < size_pseq(view_prod_seq(a@)) + 1);
        }
        if result {
            let _ = same_prod_exec(&sa[i], &sb[0], names);
        } else {
            let ghost nm_in = names@;
            let bn = sb.len();
            let mut j: usize = 0;
            let mut found = false;
            while j < bn && !found
                invariant
                    i < n,
                    n == sa@.len(),
                    bn == sb@.len(),
                    sa@.len() == sav.len(),
                    sb@.len() == sbv.len(),
                    sav == view_prod_seq(sa@),
                    sbv == view_prod_seq(sb@),
                    va == view_prod_seq(a@),
                    size_pseq(sav) == size_pseq(va),
                    forall|k: int| 0 <= k < sav.len() ==> sav[k] == view_product(sa@[k]),
                    forall|k: int| 0 <= k < sbv.len() ==> sbv[k] == view_product(sb@[k]),
                    0 <= j <= bn,
                    !found ==> vp_inner(sav[i as int], sbv, j as int, names@) == vp_inner(
                        sav[i as int],
                        sbv,
                        0,
                        nm_in,
                    ),
                    found ==> (true, names@) == vp_inner(sav[i as int], sbv, 0, nm_in),
                decreases bn - j, if found { 0int } else { 1int },
            {
                proof {
                    lemma_size_pseq_elem(sav, i as int);
                    assert(view_product(sa@[i as int]) == sav[i as int]);
                    assert(size_prod(view_product(sa@[i as int])) < size_pseq(
                        view_prod_seq(a@),
                    ) + 1);
                }
                found = same_prod_exec(&sa[i], &sb[j], names);
                j += 1;
            }
            proof {
                if !found {
                    assert(vp_inner(sav[i as int], sbv, j as int, names@) == (false, names@));
                }
            }
            result = found;
        }
        i += 1;
    }
    proof {
        assert(vp_outer(sav, sbv, n as int, result, names@) == (result, names@));
        assert(vp_stage(va, vb, nm0) == vp_outer(sav, sbv, 0, false, nm0));
    }
    result
}

fn same_eq_exec(a: &Equation, b: &Equation, names: &mut IsSameNames) -> (r: bool)
    ensures
        ({
            let x = ms_eq(a@, b@, old(names)@);
            r == x.0 && final(names)@ == x.1
        }),
{
    let ghost va = a@;
    let ghost vb = b@;
    proof {
        lemma_view_elem_seq(a.equation_sides@);
        lemma_view_elem_seq(b.equation_sides@);
    }
    if a.equation_sides.len() != b.equation_sides.len() {
        return false;
    }
    let ghost nm0 = names@;
    let n = a.equation_sides.len();
    let mut i: usize = 0;
    while i < n
        invariant
            n == a.equation_sides@.len(),
            n == b.equation_sides@.len(),
            va == a@,
            vb == b@,
            va.len() == n,
            vb.len() == n,
            forall|j: int| 0 <= j < n ==> va[j] == view_element(a.equation_sides@[j]),
            forall|j: int| 0 <= j < n ==> vb[j] == view_element(b.equation_sides@[j]),
            0 <= i <= n,
            nm0 == old(names)@,
            eq_loop(va, vb, i as int, names@) == eq_loop(va, vb, 0, nm0),
        decreases n - i,
    {
        let ghost nmp = names@;
        let ok = same_elem_exec(&a.equation_sides[i], &b.equation_sides[i], names);
        proof {
            if ok {
                assert(eq_loop(va, vb, i as int, nmp) == eq_loop(va, vb, i as int + 1, names@));
            } else {
                assert(eq_loop(va, vb, i as int, nmp) == (false, names@));
            }
        }
        if !ok {
            return false;
        }
        i += 1;
    }
    true
}

// ---------------------------------------------------------------------------
// The public face.
// ---------------------------------------------------------------------------

/// Structural equivalence up to renaming, with the exact comparison given
/// by the type's `same_spec` mirror.
pub trait IsSame {
    spec fn same_spec(a: Self, b: Self, nm: NamesV) -> (bool, NamesV) where Self: Sized;

    fn is_same(lhs: &Self, rhs: &Self, names: &mut IsSameNames) -> (r: bool) where Self: Sized
        ensures
            ({
                let x = Self::same_spec(*lhs, *rhs, old(names)@);
                r == x.0 && final(names)@ == x.1
            }),
    ;
}

impl IsSame for Element {
    open spec fn same_spec(a: Element, b: Element, nm: NamesV) -> (bool, NamesV) {
        ms_elem(view_element(a), view_element(b), nm)
    }

    fn is_same(lhs: &Self, rhs: &Self, names: &mut IsSameNames) -> (r: bool) {
        same_elem_exec(lhs, rhs, names)
    }
}

impl IsSame for NodeOrExpression {
    open spec fn same_spec(a: NodeOrExpression, b: NodeOrExpression, nm: NamesV) -> (
        bool,
        NamesV,
    ) {
        ms_noe(view_noe(a), view_noe(b), nm)
    }

    fn is_same(lhs: &Self, rhs: &Self, names: &mut IsSameNames) -> (r: bool) {
        same_noe_exec(lhs, rhs, names)
    }
}

impl IsSame for Node {
    open spec fn same_spec(a: Node, b: Node, nm: NamesV) -> (bool, NamesV) {
        ms_node(view_node(a), view_node(b), nm)
    }

    fn is_same(lhs: &Self, rhs: &Self, names: &mut IsSameNames) -> (r: bool) {
        same_node_exec(lhs, rhs, names)
    }
}

impl IsSame for crate::ast::element::Expression {
    open spec fn same_spec(a: crate::ast::element::Expression, b: crate::ast::element::Expression, nm: NamesV) -> (
        bool,
        NamesV,
    ) {
        vp_stage(view_prod_seq(a.products@), view_prod_seq(b.products@), nm)
    }

    fn is_same(lhs: &Self, rhs: &Self, names: &mut IsSameNames) -> (r: bool) {
        vstage_pexec(&lhs.products, &rhs.products, names)
    }
}

impl IsSame for Product {
    open spec fn same_spec(a: Product, b: Product, nm: NamesV) -> (bool, NamesV) {
        ms_prod(view_product(a), view_product(b), nm)
    }

    fn is_same(lhs: &Self, rhs: &Self, names: &mut IsSameNames) -> (r: bool) {
        same_prod_exec(lhs, rhs, names)
    }
}

impl IsSame for Equation {
    open spec fn same_spec(a: Equation, b: Equation, nm: NamesV) -> (bool, NamesV) {
        ms_eq(a@, b@, nm)
    }

    fn is_same(lhs: &Self, rhs: &Self, names: &mut IsSameNames) -> (r: bool) {
        same_eq_exec(lhs, rhs, names)
    }
}

} // verus!
