//! Token-level input to the tree builder.
//!
//! The solver core never re-parses text itself; it receives validated trees.
//! These types describe the token stream such a front end hands over.

use vstd::prelude::*;

use crate::rational::Rational;

verus! {

/// Model of one token: names as character sequences.
pub enum TokenV {
    Number(Rational),
    Identifier { name: Seq<char>, could_be_unit: bool },
    Function(Seq<char>),
    Binary(Operation),
    Comma,
    LeftParenthesis,
    RightParenthesis,
}

pub open spec fn token_view(t: Token) -> TokenV {
    match t {
        Token::Number(r) => TokenV::Number(r),
        Token::Identifier { name, could_be_unit } => TokenV::Identifier {
            name: name@,
            could_be_unit,
        },
        Token::Function(name) => TokenV::Function(name@),
        Token::Binary(op) => TokenV::Binary(op),
        Token::Comma => TokenV::Comma,
        Token::LeftParenthesis => TokenV::LeftParenthesis,
        Token::RightParenthesis => TokenV::RightParenthesis,
    }
}

pub open spec fn tokens_view(s: Seq<Token>) -> Seq<TokenV> {
    Seq::new(s.len(), |i: int| token_view(s[i]))
}

/// A binary operator or the relation joining two equation sides.
#[derive(Debug, Clone, Copy, PartialEq, Eq, Structural)]
pub enum Operation {
    Add,
    Subtract,
    Multiply,
    Divide,
    Power,
    Modulo,
    Equal,
}

/// One lexical token.
#[derive(Debug, Clone)]
pub enum Token {
    Number(Rational),
    Identifier { name: String, could_be_unit: bool },
    Function(String),
    Binary(Operation),
    Comma,
    LeftParenthesis,
    RightParenthesis,
}

/// Why a source string was rejected.
#[derive(Debug, Clone, Copy, PartialEq, Eq, Structural)]
pub enum ParseError {
    UnexpectedToken(usize),
    MissingRightParenthesis(usize),
    MissingArgument,
}

/// A tokenized source line.
#[derive(Debug, Clone)]
pub struct TokenizedString {
    pub tokens: Vec<Token>,
}

impl TokenizedString {
    pub fn new_from_tokens(tokens: Vec<Token>) -> (r: Self)
        ensures
            r.tokens == tokens,
    {
        Self { tokens }
    }
}

// ---------------------------------------------------------------------------
// The lexical grammar, on the model.
// ---------------------------------------------------------------------------

pub open spec fn is_space(c: char) -> bool {
    c == ' ' || c == '\t' || c == '\n' || c == '\r'
}

pub open spec fn is_digit(c: char) -> bool {
    48 <= c as u32 <= 57
}

pub open spec fn digit_val(c: char) -> int {
    c as u32 - 48
}

pub open spec fn is_alpha(c: char) -> bool {
    (65 <= c as u32 <= 90) || (97 <= c as u32 <= 122) || c == '_'
}

pub open spec fn is_ident_char(c: char) -> bool {
    is_alpha(c) || is_digit(c)
}

pub open spec fn op_of(c: char) -> Option<Operation> {
    if c == '+' {
        Some(Operation::Add)
    } else if c == '-' {
        Some(Operation::Subtract)
    } else if c == '*' {
        Some(Operation::Multiply)
    } else if c == '/' {
        Some(Operation::Divide)
    } else if c == '^' {
        Some(Operation::Power)
    } else if c == '%' {
        Some(Operation::Modulo)
    } else if c == '=' {
        Some(Operation::Equal)
    } else {
        None
    }
}

/// The first position at or after `i` that is not an identifier character.
pub open spec fn ident_end(s: Seq<char>, i: int) -> int
    decreases s.len() - i,
{
    if i < 0 || i >= s.len() || !is_ident_char(s[i]) {
        i
    } else {
        ident_end(s, i + 1)
    }
}

/// The first position at or after `i` that is not a digit.
pub open spec fn digits_end(s: Seq<char>, i: int) -> int
    decreases s.len() - i,
{
    if i < 0 || i >= s.len() || !is_digit(s[i]) {
        i
    } else {
        digits_end(s, i + 1)
    }
}

/// A scan never moves backward and never leaves the input.
pub proof fn lemma_ident_end(s: Seq<char>, i: int)
    requires
        0 <= i <= s.len(),
    ensures
        i <= ident_end(s, i) <= s.len(),
    decreases s.len() - i,
{
    if i < s.len() && is_ident_char(s[i]) {
        lemma_ident_end(s, i + 1);
    }
}

pub proof fn lemma_digits_end(s: Seq<char>, i: int)
    requires
        0 <= i <= s.len(),
    ensures
        i <= digits_end(s, i) <= s.len(),
    decreases s.len() - i,
{
    if i < s.len() && is_digit(s[i]) {
        lemma_digits_end(s, i + 1);
    }
}

/// The value of the digits in `i..j`, folded onto `acc`.
pub open spec fn num_value(s: Seq<char>, i: int, j: int, acc: int) -> int
    decreases j - i,
{
    if i >= j {
        acc
    } else {
        num_value(s, i + 1, j, acc * 10 + digit_val(s[i]))
    }
}

/// Insert the implicit multiplication the grammar allows between a
/// completed operand and a following operand.
pub open spec fn maybe_mult(right: bool, acc: Seq<TokenV>) -> Seq<TokenV> {
    if right {
        acc.push(TokenV::Binary(Operation::Multiply))
    } else {
        acc
    }
}

/// The token stream of `s` from position `i` on: a state machine over two
/// modes (expecting an operand, or just past one), with a stack recording
/// whether each open parenthesis belongs to a function call. Numbers too
/// large for the bounded constant type, a comma outside a function call,
/// an unmatched closing parenthesis and any unknown character are
/// rejected; at the end, a dangling operator and unclosed parentheses
/// are.
pub open spec fn lex_from(
    s: Seq<char>,
    i: int,
    right: bool,
    stack: Seq<bool>,
    acc: Seq<TokenV>,
) -> Result<Seq<TokenV>, ParseError>
    decreases s.len() - i,
{
    if i < 0 {
        Err(ParseError::MissingArgument)
    } else if i >= s.len() {
        if !right {
            Err(ParseError::MissingArgument)
        } else if stack.len() > 0 {
            Err(ParseError::MissingRightParenthesis(stack.len() as usize))
        } else {
            Ok(acc)
        }
    } else {
        let c = s[i];
        if is_space(c) {
            lex_from(s, i + 1, right, stack, acc)
        } else if is_digit(c) {
            let j = ({
                proof {
                    lemma_digits_end(s, i + 1);
                }
                digits_end(s, i + 1)
            });
            let v = num_value(s, i, j, 0);
            if v > i64::MAX {
                Err(ParseError::UnexpectedToken(i as usize))
            } else {
                lex_from(
                    s,
                    j,
                    true,
                    stack,
                    maybe_mult(right, acc).push(
                        TokenV::Number(Rational { num: v as i64, den: 1 }),
                    ),
                )
            }
        } else if is_alpha(c) {
            let j = ({
                proof {
                    lemma_ident_end(s, i + 1);
                }
                ident_end(s, i + 1)
            });
            let name = s.subrange(i, j);
            if j < s.len() && s[j] == '(' {
                lex_from(
                    s,
                    j + 1,
                    false,
                    stack.push(true),
                    maybe_mult(right, acc).push(TokenV::Function(name)),
                )
            } else {
                lex_from(
                    s,
                    j,
                    true,
                    stack,
                    maybe_mult(right, acc).push(
                        TokenV::Identifier { name, could_be_unit: false },
                    ),
                )
            }
        } else if c == '(' {
            lex_from(
                s,
                i + 1,
                false,
                stack.push(false),
                maybe_mult(right, acc).push(TokenV::LeftParenthesis),
            )
        } else if c == ')' {
            if stack.len() == 0 {
                Err(ParseError::UnexpectedToken(i as usize))
            } else {
                lex_from(s, i + 1, true, stack.drop_last(), acc.push(TokenV::RightParenthesis))
            }
        } else if c == ',' {
            if stack.len() == 0 || stack.last() != true {
                Err(ParseError::UnexpectedToken(i as usize))
            } else {
                lex_from(s, i + 1, false, stack, acc.push(TokenV::Comma))
            }
        } else {
            match op_of(c) {
                Some(op) => lex_from(s, i + 1, false, stack, acc.push(TokenV::Binary(op))),
                None => Err(ParseError::UnexpectedToken(i as usize)),
            }
        }
    }
}

pub open spec fn lex_spec(s: Seq<char>) -> Result<Seq<TokenV>, ParseError> {
    lex_from(s, 0, false, Seq::empty(), Seq::empty())
}

// ---------------------------------------------------------------------------
// The executable tokenizer.
// ---------------------------------------------------------------------------

fn is_space_exec(c: char) -> (r: bool)
    ensures
        r == is_space(c),
{
    c == ' ' || c == '\t' || c == '\n' || c == '\r'
}

fn is_digit_exec(c: char) -> (r: bool)
    ensures
        r == is_digit(c),
{
    let u = c as u32;
    48 <= u && u <= 57
}

fn is_alpha_exec(c: char) -> (r: bool)
    ensures
        r == is_alpha(c),
{
    let u = c as u32;
    (65 <= u && u <= 90) || (97 <= u && u <= 122) || c == '_'
}

fn is_ident_char_exec(c: char) -> (r: bool)
    ensures
        r == is_ident_char(c),
{
    is_alpha_exec(c) || is_digit_exec(c)
}

fn op_of_exec(c: char) -> (r: Option<Operation>)
    ensures
        r == op_of(c),
{
    if c == '+' {
        Some(Operation::Add)
    } else if c == '-' {
        Some(Operation::Subtract)
    } else if c == '*' {
        Some(Operation::Multiply)
    } else if c == '/' {
        Some(Operation::Divide)
    } else if c == '^' {
        Some(Operation::Power)
    } else if c == '%' {
        Some(Operation::Modulo)
    } else if c == '=' {
        Some(Operation::Equal)
    } else {
        None
    }
}

proof fn lemma_tokens_view_push(s: Seq<Token>)
    requires
        s.len() > 0,
    ensures
        tokens_view(s) == tokens_view(s.drop_last()).push(token_view(s.last())),
{
    assert(tokens_view(s) =~= tokens_view(s.drop_last()).push(token_view(s.last())));
}

/// Scanning from inside a digit run lands at the same end.
proof fn lemma_digits_step(s: Seq<char>, i: int, j: int)
    requires
        0 <= i <= j <= s.len(),
        forall|k: int| i <= k < j ==> is_digit(#[trigger] s[k]),
    ensures
        digits_end(s, i) == digits_end(s, j),
    decreases j - i,
{
    if i < j {
        lemma_digits_step(s, i + 1, j);
    }
}

proof fn lemma_ident_step(s: Seq<char>, i: int, j: int)
    requires
        0 <= i <= j <= s.len(),
        forall|k: int| i <= k < j ==> is_ident_char(#[trigger] s[k]),
    ensures
        ident_end(s, i) == ident_end(s, j),
    decreases j - i,
{
    if i < j {
        lemma_ident_step(s, i + 1, j);
    }
}

/// The folded value never falls below the accumulator.
proof fn lemma_num_value_lb(s: Seq<char>, i: int, j: int, acc: int)
    requires
        acc >= 0,
        forall|k: int| i <= k < j ==> is_digit(#[trigger] s[k]),
    ensures
        num_value(s, i, j, acc) >= acc,
    decreases j - i,
{
    if i < j {
        assert(digit_val(s[i]) >= 0);
        lemma_num_value_lb(s, i + 1, j, acc * 10 + digit_val(s[i]));
    }
}

impl TokenizedString {
    /// Tokenize a source line, or say which position refused.
    pub fn try_new(input: &str) -> (r: Result<TokenizedString, ParseError>)
        ensures
            match r {
                Ok(ts) => lex_spec(input@) == Ok::<Seq<TokenV>, ParseError>(
                    tokens_view(ts.tokens@),
                ),
                Err(e) => lex_spec(input@) == Err::<Seq<TokenV>, ParseError>(e),
            },
    {
        let ghost sv = input@;
        let n = input.unicode_len();
        let mut tokens: Vec<Token> = Vec::new();
        let mut stack: Vec<bool> = Vec::new();
        let mut right = false;
        let mut i: usize = 0;
        proof {
            assert(tokens_view(tokens@) =~= Seq::<TokenV>::empty());
            assert(lex_from(sv, 0, false, stack@, tokens_view(tokens@)) == lex_spec(sv));
        }
        while i < n
            invariant
                n == sv.len(),
                sv == input@,
                0 <= i <= n,
                lex_from(sv, i as int, right, stack@, tokens_view(tokens@)) == lex_spec(sv),
            decreases n - i,
        {
            let ghost right0 = right;
            let ghost stack0 = stack@;
            let ghost acc0 = tokens_view(tokens@);
            let c = input.get_char(i);
            proof {
                assert(c == sv[i as int]);
            }
            if is_space_exec(c) {
                i += 1;
            } else if is_digit_exec(c) {
                // the digit run and its value
                let mut j = i + 1;
                while j < n && is_digit_exec_at(input, j)
                    invariant
                        n == sv.len(),
                        sv == input@,
                        i < j <= n,
                        forall|k: int| i < k < j ==> is_digit(#[trigger] sv[k]),
                    decreases n - j,
                {
                    j += 1;
                }
                proof {
                    lemma_digits_step(sv, i as int + 1, j as int);
                    if j < n {
                        assert(!is_digit(sv[j as int]));
                    }
                    assert(digits_end(sv, j as int) == j as int);
                    assert(digits_end(sv, i as int + 1) == j as int);
                }
                let mut v: u64 = 0;
                let mut k = i;
                let mut too_big = false;
                while k < j && !too_big
                    invariant
                        n == sv.len(),
                        sv == input@,
                        i <= k <= j <= n,
                        is_digit(sv[i as int]),
                        forall|kk: int| i < kk < j ==> is_digit(#[trigger] sv[kk]),
                        v <= i64::MAX as u64,
                        !too_big ==> num_value(sv, i as int, j as int, 0) == num_value(
                            sv,
                            k as int,
                            j as int,
                            v as int,
                        ),
                        too_big ==> num_value(sv, i as int, j as int, 0) > i64::MAX,
                    decreases j - k, if too_big { 0int } else { 1int },
                {
                    let ck = input.get_char(k);
                    proof {
                        assert(ck == sv[k as int]);
                        assert(is_digit(sv[k as int]));
                    }
                    let d = (ck as u32 - 48) as u64;
                    if v > (0x7FFF_FFFF_FFFF_FFFFu64 - d) / 10 {
                        proof {
                            assert(v as int * 10 + d as int > i64::MAX);
                            lemma_num_value_lb(
                                sv,
                                k as int + 1,
                                j as int,
                                v as int * 10 + d as int,
                            );
                        }
                        too_big = true;
                    } else {
                        v = v * 10 + d;
                        k += 1;
                    }
                }
                if too_big {
                    proof {
                        assert(lex_spec(sv) == Err::<Seq<TokenV>, ParseError>(
                            ParseError::UnexpectedToken(i),
                        ));
                    }
                    return Err(ParseError::UnexpectedToken(i));
                }
                proof {
                    assert(num_value(sv, i as int, j as int, 0) == v as int);
                }
                if right {
                    tokens.push(Token::Binary(Operation::Multiply));
                    proof {
                        assert(tokens@.drop_last() =~= tokens@.subrange(
                            0,
                            tokens@.len() - 1,
                        ));
                        lemma_tokens_view_push(tokens@);
                    }
                }
                tokens.push(Token::Number(Rational::from_integer(v as i64)));
                proof {
                    lemma_tokens_view_push(tokens@);
                    assert(tokens_view(tokens@) =~= maybe_mult(right0, acc0).push(
                        TokenV::Number(Rational { num: v as i64, den: 1 }),
                    ));
                }
                right = true;
                i = j;
            } else if is_alpha_exec(c) {
                let mut j = i + 1;
                while j < n && is_ident_char_exec_at(input, j)
                    invariant
                        n == sv.len(),
                        sv == input@,
                        i < j <= n,
                        forall|k: int| i < k < j ==> is_ident_char(#[trigger] sv[k]),
                    decreases n - j,
                {
                    j += 1;
                }
                proof {
                    lemma_ident_step(sv, i as int + 1, j as int);
                    if j < n {
                        assert(!is_ident_char(sv[j as int]));
                    }
                    assert(ident_end(sv, j as int) == j as int);
                    assert(ident_end(sv, i as int + 1) == j as int);
                }
                let name_slice = input.substring_char(i, j);
                let name = name_slice.to_owned();
                proof {
                    assert(name@ == sv.subrange(i as int, j as int));
                }
                let is_call = j < n && input.get_char(j) == '(';
                if right {
                    tokens.push(Token::Binary(Operation::Multiply));
                    proof {
                        lemma_tokens_view_push(tokens@);
                    }
                }
                if is_call {
                    tokens.push(Token::Function(name));
                    stack.push(true);
                    proof {
                        lemma_tokens_view_push(tokens@);
                        assert(tokens_view(tokens@) =~= maybe_mult(right0, acc0).push(
                            TokenV::Function(sv.subrange(i as int, j as int)),
                        ));
                    }
                    right = false;
                    i = j + 1;
                } else {
                    tokens.push(Token::Identifier { name, could_be_unit: false });
                    proof {
                        lemma_tokens_view_push(tokens@);
                        assert(tokens_view(tokens@) =~= maybe_mult(right0, acc0).push(
                            (TokenV::Identifier {
                                name: sv.subrange(i as int, j as int),
                                could_be_unit: false,
                            }),
                        ));
                    }
                    right = true;
                    i = j;
                }
            } else if c == '(' {
                if right {
                    tokens.push(Token::Binary(Operation::Multiply));
                    proof {
                        lemma_tokens_view_push(tokens@);
                    }
                }
                tokens.push(Token::LeftParenthesis);
                stack.push(false);
                proof {
                    lemma_tokens_view_push(tokens@);
                    assert(tokens_view(tokens@) =~= maybe_mult(right0, acc0).push(
                        TokenV::LeftParenthesis,
                    ));
                }
                right = false;
                i += 1;
            } else if c == ')' {
                if stack.len() == 0 {
                    proof {
                        assert(lex_spec(sv) == Err::<Seq<TokenV>, ParseError>(
                            ParseError::UnexpectedToken(i),
                        ));
                    }
                    return Err(ParseError::UnexpectedToken(i));
                }
                let _ = stack.pop();
                tokens.push(Token::RightParenthesis);
                proof {
                    lemma_tokens_view_push(tokens@);
                    assert(stack@ =~= stack0.drop_last());
                    assert(tokens_view(tokens@) =~= acc0.push(TokenV::RightParenthesis));
                }
                right = true;
                i += 1;
            } else if c == ',' {
                let comma_ok = stack.len() > 0 && stack[stack.len() - 1];
                if !comma_ok {
                    proof {
                        assert(lex_spec(sv) == Err::<Seq<TokenV>, ParseError>(
                            ParseError::UnexpectedToken(i),
                        ));
                    }
                    return Err(ParseError::UnexpectedToken(i));
                }
                tokens.push(Token::Comma);
                proof {
                    lemma_tokens_view_push(tokens@);
                    assert(tokens_view(tokens@) =~= acc0.push(TokenV::Comma));
                }
                right = false;
                i += 1;
            } else {
                match op_of_exec(c) {
                    Some(op) => {
                        tokens.push(Token::Binary(op));
                        proof {
                            lemma_tokens_view_push(tokens@);
                            assert(tokens_view(tokens@) =~= acc0.push(TokenV::Binary(op)));
                        }
                        right = false;
                        i += 1;
                    },
                    None => {
                        proof {
                            assert(lex_spec(sv) == Err::<Seq<TokenV>, ParseError>(
                                ParseError::UnexpectedToken(i),
                            ));
                        }
                        return Err(ParseError::UnexpectedToken(i));
                    },
                }
            }
        }
        if !right {
            proof {
                assert(lex_spec(sv) == Err::<Seq<TokenV>, ParseError>(
                    ParseError::MissingArgument,
                ));
            }
            return Err(ParseError::MissingArgument);
        }
        if stack.len() > 0 {
            let depth = stack.len();
            proof {
                assert(lex_spec(sv) == Err::<Seq<TokenV>, ParseError>(
                    ParseError::MissingRightParenthesis(depth),
                ));
            }
            return Err(ParseError::MissingRightParenthesis(depth));
        }
        proof {
            assert(lex_spec(sv) == Ok::<Seq<TokenV>, ParseError>(tokens_view(tokens@)));
        }
        Ok(TokenizedString { tokens })
    }
}

fn is_digit_exec_at(s: &str, j: usize) -> (r: bool)
    requires
        j < s@.len(),
    ensures
        r == is_digit(s@[j as int]),
{
    is_digit_exec(s.get_char(j))
}

fn is_ident_char_exec_at(s: &str, j: usize) -> (r: bool)
    requires
        j < s@.len(),
    ensures
        r == is_ident_char(s@[j as int]),
{
    is_ident_char_exec(s.get_char(j))
}

} // verus!
