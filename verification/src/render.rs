//! Rendering trees to text.
//!
//! The solver reports non-degeneracy constraints as strings such as
//! `"2 != 0"`, so elements need a textual form. The format is plain infix:
//! a leading `-` for a negative sign, `num/den` for non-integer rationals,
//! parenthesized operands for powers, modulo and factorials, `name(a, b)`
//! for functions, products joined with ` * `, a `/` between numerator and
//! denominator parts, and sums joined with ` + ` inside parentheses.
//!
//! Every executable function returns exactly what its specification mirror
//! describes.

use vstd::prelude::*;

use crate::ast::element::{
    lemma_view_elem_seq, lemma_view_prod_seq, view_elem_seq, view_element, view_prod_seq,
    view_product, ElemV, Element, Node, NodeOrExpression, NodeV, NoeV, ProdV, Product, Sign,
};
use crate::rational::Rational;

verus! {

// ---------------------------------------------------------------------------
// Decimal digits.
// ---------------------------------------------------------------------------

pub open spec fn digit_char(d: int) -> char {
    if d == 0 {
        '0'
    } else if d == 1 {
        '1'
    } else if d == 2 {
        '2'
    } else if d == 3 {
        '3'
    } else if d == 4 {
        '4'
    } else if d == 5 {
        '5'
    } else if d == 6 {
        '6'
    } else if d == 7 {
        '7'
    } else if d == 8 {
        '8'
    } else {
        '9'
    }
}

/// The decimal digits of a nonnegative number.
pub open spec fn digits(n: int) -> Seq<char>
    decreases n,
{
    if n < 10 {
        seq![digit_char(n)]
    } else {
        digits(n / 10).push(digit_char(n % 10))
    }
}

/// The decimal form of a signed number.
pub open spec fn dec_str(n: int) -> Seq<char> {
    if n < 0 {
        seq!['-'].add(digits(-n))
    } else {
        digits(n)
    }
}

fn digit_str(d: u64) -> (r: &'static str)
    requires
        d < 10,
    ensures
        r@ == seq![digit_char(d as int)],
{
    proof {
        reveal_strlit("0");
        reveal_strlit("1");
        reveal_strlit("2");
        reveal_strlit("3");
        reveal_strlit("4");
        reveal_strlit("5");
        reveal_strlit("6");
        reveal_strlit("7");
        reveal_strlit("8");
        reveal_strlit("9");
    }
    let r = match d {
        0 => "0",
        1 => "1",
        2 => "2",
        3 => "3",
        4 => "4",
        5 => "5",
        6 => "6",
        7 => "7",
        8 => "8",
        _ => "9",
    };
    proof {
        assert(r@ =~= seq![digit_char(d as int)]);
    }
    r
}

fn render_u64(n: u64) -> (r: String)
    ensures
        r@ == digits(n as int),
    decreases n,
{
    if n < 10 {
        let mut s = String::new();
        s.append(digit_str(n));
        proof {
            assert(s@ =~= digits(n as int));
        }
        s
    } else {
        let mut s = render_u64(n / 10);
        s.append(digit_str(n % 10));
        proof {
            assert(s@ =~= digits(n as int));
        }
        s
    }
}

/// Decimal rendering of an `i64`.
pub fn render_i64(n: i64) -> (r: String)
    ensures
        r@ == dec_str(n as int),
{
    if n < 0 {
        let mut s = String::new();
        proof {
            reveal_strlit("-");
        }
        s.append("-");
        let mag: u64 = if n == i64::MIN {
            0x8000_0000_0000_0000u64
        } else {
            (-n) as u64
        };
        let d = render_u64(mag);
        s.append(d.as_str());
        proof {
            assert(s@ =~= dec_str(n as int));
        }
        s
    } else {
        render_u64(n as u64)
    }
}

// ---------------------------------------------------------------------------
// Rendering trees.
// ---------------------------------------------------------------------------

pub open spec fn render_rat(r: Rational) -> Seq<char> {
    if r.den == 1 {
        dec_str(r.num as int)
    } else {
        dec_str(r.num as int).add(seq!['/']).add(dec_str(r.den as int))
    }
}

pub open spec fn render_elem(e: ElemV) -> Seq<char>
    decreases e, 2int,
{
    if e.sign is Negative {
        seq!['-'].add(render_noe(e.body))
    } else {
        render_noe(e.body)
    }
}

pub open spec fn render_noe(n: NoeV) -> Seq<char>
    decreases n, 2int,
{
    match n {
        NoeV::Node(nd) => render_node(nd),
        NoeV::Expression(x) => seq!['('].add(render_pseq(x.products)).add(seq![')']),
    }
}

pub open spec fn render_node(nd: NodeV) -> Seq<char>
    decreases nd, 2int,
{
    match nd {
        NodeV::Number(r) => render_rat(r),
        NodeV::Variable(name) => name,
        NodeV::Power { base, power } => seq!['('].add(render_elem(*base)).add(
            seq![')', '^', '('],
        ).add(render_elem(*power)).add(seq![')']),
        NodeV::Modulo { lhs, rhs } => seq!['('].add(render_elem(*lhs)).add(
            seq![')', ' ', '%', ' ', '('],
        ).add(render_elem(*rhs)).add(seq![')']),
        NodeV::Factorial { child } => seq!['('].add(render_elem(*child)).add(seq![')', '!']),
        NodeV::Function { name, arguments } => name.add(seq!['(']).add(
            render_args(arguments),
        ).add(seq![')']),
    }
}

/// Function arguments joined with `, `.
pub open spec fn render_args(s: Seq<ElemV>) -> Seq<char>
    decreases s, 1int,
{
    if s.len() == 0 {
        Seq::empty()
    } else if s.len() == 1 {
        render_elem(s.last())
    } else {
        render_args(s.drop_last()).add(seq![',', ' ']).add(render_elem(s.last()))
    }
}

/// Factors joined with ` * `; an empty list renders as `1`.
pub open spec fn render_factors(s: Seq<ElemV>) -> Seq<char>
    decreases s, 1int,
{
    if s.len() == 0 {
        seq!['1']
    } else if s.len() == 1 {
        render_elem(s.last())
    } else {
        render_factors(s.drop_last()).add(seq![' ', '*', ' ']).add(render_elem(s.last()))
    }
}

pub open spec fn render_prod(p: ProdV) -> Seq<char>
    decreases p, 2int,
{
    if p.denominator.len() == 0 {
        render_factors(p.numerator)
    } else {
        render_factors(p.numerator).add(seq![' ', '/', ' ']).add(render_factors(p.denominator))
    }
}

/// Products joined with ` + `.
pub open spec fn render_pseq(s: Seq<ProdV>) -> Seq<char>
    decreases s, 1int,
{
    if s.len() == 0 {
        Seq::empty()
    } else if s.len() == 1 {
        render_prod(s.last())
    } else {
        render_pseq(s.drop_last()).add(seq![' ', '+', ' ']).add(render_prod(s.last()))
    }
}

// ---------------------------------------------------------------------------
// Executable rendering.
// ---------------------------------------------------------------------------

pub fn render_rat_exec(r: &Rational) -> (out: String)
    ensures
        out@ == render_rat(*r),
{
    let num = r.numerator();
    let den = r.denominator();
    if den == 1 {
        render_i64(num)
    } else {
        let mut s = render_i64(num);
        proof {
            reveal_strlit("/");
        }
        s.append("/");
        let d = render_i64(den);
        s.append(d.as_str());
        proof {
            assert(s@ =~= render_rat(*r));
        }
        s
    }
}

/// Render one element in the crate's plain infix form.
pub fn render_elem_exec(e: &Element) -> (out: String)
    ensures
        out@ == render_elem(e@),
    decreases *e, 2int,
{
    let body = render_noe_exec(&e.node_or_expression);
    match e.sign {
        Sign::Negative => {
            let mut s = String::new();
            proof {
                reveal_strlit("-");
            }
            s.append("-");
            s.append(body.as_str());
            proof {
                assert(s@ =~= render_elem(e@));
            }
            s
        },
        Sign::Positive => {
            proof {
                assert(body@ =~= render_elem(e@));
            }
            body
        },
    }
}

fn render_noe_exec(n: &NodeOrExpression) -> (out: String)
    ensures
        out@ == render_noe(n@),
    decreases *n, 2int,
{
    proof {
        reveal_strlit("(");
        reveal_strlit(")");
    }
    match n {
        NodeOrExpression::Node(nd) => render_node_exec(nd),
        NodeOrExpression::Expression(x) => {
            let mut s = String::new();
            s.append("(");
            let inner = render_pseq_exec(&x.products);
            s.append(inner.as_str());
            s.append(")");
            proof {
                assert(s@ =~= render_noe(n@));
            }
            s
        },
    }
}

fn render_node_exec(nd: &Node) -> (out: String)
    ensures
        out@ == render_node(nd@),
    decreases *nd, 2int,
{
    proof {
        reveal_strlit("(");
        reveal_strlit(")");
        reveal_strlit(")^(");
        reveal_strlit(") % (");
        reveal_strlit(")!");
    }
    match nd {
        Node::Number(r) => {
            let s = render_rat_exec(r);
            proof {
                assert(s@ =~= render_node(nd@));
            }
            s
        },
        Node::Variable(name) => {
            let s = name.clone();
            proof {
                assert(s@ =~= render_node(nd@));
            }
            s
        },
        Node::Power { base, power } => {
            let mut s = String::new();
            s.append("(");
            let b = render_elem_exec(base);
            s.append(b.as_str());
            s.append(")^(");
            let p = render_elem_exec(power);
            s.append(p.as_str());
            s.append(")");
            proof {
                assert(s@ =~= render_node(nd@));
            }
            s
        },
        Node::Modulo { lhs, rhs } => {
            let mut s = String::new();
            s.append("(");
            let l = render_elem_exec(lhs);
            s.append(l.as_str());
            s.append(") % (");
            let r = render_elem_exec(rhs);
            s.append(r.as_str());
            s.append(")");
            proof {
                assert(s@ =~= render_node(nd@));
            }
            s
        },
        Node::Factorial { child } => {
            let mut s = String::new();
            s.append("(");
            let c = render_elem_exec(child);
            s.append(c.as_str());
            s.append(")!");
            proof {
                assert(s@ =~= render_node(nd@));
            }
            s
        },
        Node::Function { name, arguments } => {
            let mut s = name.clone();
            s.append("(");
            let a = render_args_exec(arguments);
            s.append(a.as_str());
            s.append(")");
            proof {
                assert(s@ =~= render_node(nd@));
            }
            s
        },
    }
}

fn render_args_exec(v: &Vec<Element>) -> (out: String)
    ensures
        out@ == render_args(view_elem_seq(v@)),
    decreases v@, 1int,
{
    let ghost sv = view_elem_seq(v@);
    proof {
        lemma_view_elem_seq(v@);
        reveal_strlit(", ");
    }
    let mut s = String::new();
    let n = v.len();
    let mut i: usize = 0;
    proof {
        assert(sv.subrange(0, 0) =~= Seq::<ElemV>::empty());
        assert(s@ =~= render_args(sv.subrange(0, 0)));
    }
    while i < n
        invariant
            n == v@.len(),
            sv == view_elem_seq(v@),
            sv.len() == n,
            forall|j: int| 0 <= j < n ==> sv[j] == view_element(v@[j]),
            0 <= i <= n,
            s@ == render_args(sv.subrange(0, i as int)),
        decreases n - i,
    {
        proof {
            reveal_strlit(", ");
            assert(sv.subrange(0, i as int + 1).drop_last() =~= sv.subrange(0, i as int));
            assert(sv.subrange(0, i as int + 1).last() == sv[i as int]);
        }
        if i > 0 {
            s.append(", ");
        }
        let e = render_elem_exec(&v[i]);
        s.append(e.as_str());
        proof {
            assert(s@ =~= render_args(sv.subrange(0, i as int + 1)));
        }
        i += 1;
    }
    proof {
        assert(sv.subrange(0, n as int) =~= sv);
    }
    s
}

/// Render a factor list joined with ` * `; empty renders as `1`.
pub fn render_factors_exec(v: &Vec<Element>) -> (out: String)
    ensures
        out@ == render_factors(view_elem_seq(v@)),
    decreases v@, 1int,
{
    let ghost sv = view_elem_seq(v@);
    proof {
        lemma_view_elem_seq(v@);
        reveal_strlit(" * ");
        reveal_strlit("1");
    }
    if v.len() == 0 {
        let mut s = String::new();
        s.append("1");
        proof {
            assert(s@ =~= render_factors(sv));
        }
        return s;
    }
    let mut s = String::new();
    let n = v.len();
    let mut i: usize = 0;
    proof {
        assert(sv.subrange(0, 1).drop_last() =~= Seq::<ElemV>::empty());
        assert(sv.subrange(0, 1).last() == sv[0]);
    }
    while i < n
        invariant
            n == v@.len(),
            n > 0,
            sv == view_elem_seq(v@),
            sv.len() == n,
            forall|j: int| 0 <= j < n ==> sv[j] == view_element(v@[j]),
            0 <= i <= n,
            i > 0 ==> s@ == render_factors(sv.subrange(0, i as int)),
            i == 0 ==> s@ == Seq::<char>::empty(),
        decreases n - i,
    {
        proof {
            reveal_strlit(" * ");
            assert(sv.subrange(0, i as int + 1).drop_last() =~= sv.subrange(0, i as int));
            assert(sv.subrange(0, i as int + 1).last() == sv[i as int]);
        }
        if i > 0 {
            s.append(" * ");
        }
        let e = render_elem_exec(&v[i]);
        s.append(e.as_str());
        proof {
            assert(s@ =~= render_factors(sv.subrange(0, i as int + 1)));
        }
        i += 1;
    }
    proof {
        assert(sv.subrange(0, n as int) =~= sv);
    }
    s
}

fn render_prod_exec(p: &Product) -> (out: String)
    ensures
        out@ == render_prod(view_product(*p)),
    decreases *p, 2int,
{
    proof {
        reveal_strlit(" / ");
    }
    let mut s = render_factors_exec(&p.numerator);
    if p.denominator.len() > 0 {
        s.append(" / ");
        let d = render_factors_exec(&p.denominator);
        s.append(d.as_str());
    }
    proof {
        assert(view_product(*p).denominator.len() == p.denominator@.len()) by {
            lemma_view_elem_seq(p.denominator@);
        }
        assert(s@ =~= render_prod(view_product(*p)));
    }
    s
}

fn render_pseq_exec(v: &Vec<Product>) -> (out: String)
    ensures
        out@ == render_pseq(view_prod_seq(v@)),
    decreases v@, 1int,
{
    let ghost sv = view_prod_seq(v@);
    proof {
        lemma_view_prod_seq(v@);
        reveal_strlit(" + ");
    }
    let mut s = String::new();
    let n = v.len();
    let mut i: usize = 0;
    proof {
        assert(sv.subrange(0, 0) =~= Seq::<ProdV>::empty());
        assert(s@ =~= render_pseq(sv.subrange(0, 0)));
    }
    while i < n
        invariant
            n == v@.len(),
            sv == view_prod_seq(v@),
            sv.len() == n,
            forall|j: int| 0 <= j < n ==> sv[j] == view_product(v@[j]),
            0 <= i <= n,
            s@ == render_pseq(sv.subrange(0, i as int)),
        decreases n - i,
    {
        proof {
            reveal_strlit(" + ");
            assert(sv.subrange(0, i as int + 1).drop_last() =~= sv.subrange(0, i as int));
            assert(sv.subrange(0, i as int + 1).last() == sv[i as int]);
        }
        if i > 0 {
            s.append(" + ");
        }
        let e = render_prod_exec(&v[i]);
        s.append(e.as_str());
        proof {
            assert(s@ =~= render_pseq(sv.subrange(0, i as int + 1)));
        }
        i += 1;
    }
    proof {
        assert(sv.subrange(0, n as int) =~= sv);
    }
    s
}

} // verus!
