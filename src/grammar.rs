use vstd::prelude::*;

use crate::decimal::{Dec, MAX_MANTISSA, MAX_SCALE};
use crate::expr::{ArithOp, Ast, CmpOp, LogicOp};

verus! {

// The grammar of rule expressions, as functions on characters.
//
// Each `p_*` function reads from position `p` and gives the tree it
// recognises and the position after it, or `None`. Whitespace before a token
// is skipped. `&&` binds tighter than `||`, `!` binds tightest; `*` and `/`
// bind tighter than `+` and `-`; all binary operators associate to the left.
// A comparison takes two arithmetic expressions.

pub open spec fn is_space(c: char) -> bool {
    c == ' ' || c == '\t' || c == '\n' || c == '\r'
}

/// Letters, CJK ideographs, `:` and `_`.
pub open spec fn is_word_char(c: char) -> bool {
    ('a' <= c && c <= 'z') || ('A' <= c && c <= 'Z') || ('\u{4e00}' <= c && c <= '\u{9fa5}')
        || c == ':' || c == '_'
}

pub open spec fn is_digit(c: char) -> bool {
    '0' <= c && c <= '9'
}

pub open spec fn skip_space(s: Seq<char>, p: int) -> int
    decreases s.len() - p,
{
    if 0 <= p < s.len() && is_space(s[p]) {
        skip_space(s, p + 1)
    } else {
        p
    }
}

pub open spec fn word_end(s: Seq<char>, p: int) -> int
    decreases s.len() - p,
{
    if 0 <= p < s.len() && is_word_char(s[p]) {
        word_end(s, p + 1)
    } else {
        p
    }
}

pub open spec fn digits_end(s: Seq<char>, p: int) -> int
    decreases s.len() - p,
{
    if 0 <= p < s.len() && is_digit(s[p]) {
        digits_end(s, p + 1)
    } else {
        p
    }
}

/// A name that starts at `p`: words joined by whitespace, each run of
/// whitespace between two words read as one space.
pub open spec fn name_at(s: Seq<char>, p: int) -> (Seq<char>, int)
    decreases s.len() - p,
{
    let w = word_end(s, p);
    let k = skip_space(s, w);
    if p < w && w < k && k < s.len() && is_word_char(s[k]) {
        let rest = name_at(s, k);
        (s.subrange(p, w) + seq![' '] + rest.0, rest.1)
    } else {
        (s.subrange(p, w), w)
    }
}

/// The value of the decimal digits of `s[i..j]`, other characters skipped.
pub open spec fn digits_value(s: Seq<char>, i: int, j: int) -> int
    decreases j - i,
{
    if j <= i {
        0
    } else if is_digit(s[j - 1]) {
        digits_value(s, i, j - 1) * 10 + (s[j - 1] as int - '0' as int)
    } else {
        digits_value(s, i, j - 1)
    }
}

/// Appending characters never lowers the value of the digits read so far.
pub proof fn lemma_digits_value_grows(s: Seq<char>, i: int, j: int, k: int)
    requires
        i <= j <= k,
    ensures
        0 <= digits_value(s, i, j) <= digits_value(s, i, k),
    decreases k - i,
{
    if k > j {
        lemma_digits_value_grows(s, i, j, k - 1);
    } else if j > i {
        lemma_digits_value_grows(s, i, j - 1, j - 1);
    }
}

/// End of an unsigned literal `digits ('.' digits)?` that starts at `p`.
pub open spec fn literal_end(s: Seq<char>, p: int) -> int {
    let a = digits_end(s, p);
    if a + 1 < s.len() && s[a] == '.' && is_digit(s[a + 1]) {
        digits_end(s, a + 1)
    } else {
        a
    }
}

/// Number of fractional digits of the literal that starts at `p`.
pub open spec fn literal_scale(s: Seq<char>, p: int) -> int {
    let a = digits_end(s, p);
    if a + 1 < s.len() && s[a] == '.' && is_digit(s[a + 1]) {
        literal_end(s, p) - a - 1
    } else {
        0
    }
}

/// An unsigned literal at `p`, negated when `negative`; `None` when it does
/// not fit the decimal range.
pub open spec fn p_literal(s: Seq<char>, p: int, negative: bool) -> Option<(Ast, int)> {
    let e = literal_end(s, p);
    let m = digits_value(s, p, e);
    if m <= MAX_MANTISSA && literal_scale(s, p) <= MAX_SCALE {
        let v = if negative {
            -m
        } else {
            m
        };
        Some((Ast::Number(Dec { mantissa: v as i128, scale: literal_scale(s, p) as u32 }), e))
    } else {
        None
    }
}

pub open spec fn arith_op_at(s: Seq<char>, q: int) -> Option<ArithOp> {
    if 0 <= q < s.len() {
        if s[q] == '+' {
            Some(ArithOp::Plus)
        } else if s[q] == '-' {
            Some(ArithOp::Minus)
        } else if s[q] == '*' {
            Some(ArithOp::Times)
        } else if s[q] == '/' {
            Some(ArithOp::Divide)
        } else {
            None
        }
    } else {
        None
    }
}

pub open spec fn is_additive(op: ArithOp) -> bool {
    op == ArithOp::Plus || op == ArithOp::Minus
}

/// A comparison operator at `q`, and the position after it.
pub open spec fn cmp_op_at(s: Seq<char>, q: int) -> Option<(CmpOp, int)> {
    let two = q + 1 < s.len();
    if !(0 <= q < s.len()) {
        None
    } else if s[q] == '=' {
        if two && s[q + 1] == '=' {
            Some((CmpOp::Equal, q + 2))
        } else {
            Some((CmpOp::Equal, q + 1))
        }
    } else if s[q] == '!' && two && s[q + 1] == '=' {
        Some((CmpOp::NotEqual, q + 2))
    } else if s[q] == '≠' {
        Some((CmpOp::NotEqual, q + 1))
    } else if s[q] == '<' {
        if two && s[q + 1] == '=' {
            Some((CmpOp::LessThanEqual, q + 2))
        } else {
            Some((CmpOp::LessThan, q + 1))
        }
    } else if s[q] == '≤' {
        Some((CmpOp::LessThanEqual, q + 1))
    } else if s[q] == '>' {
        if two && s[q + 1] == '=' {
            Some((CmpOp::GreaterThanEqual, q + 2))
        } else {
            Some((CmpOp::GreaterThan, q + 1))
        }
    } else if s[q] == '≥' {
        Some((CmpOp::GreaterThanEqual, q + 1))
    } else {
        None
    }
}

pub open spec fn pair_at(s: Seq<char>, q: int, c: char) -> bool {
    0 <= q && q + 1 < s.len() && s[q] == c && s[q + 1] == c
}

/// `( sum )`, a name, or a literal with an optional `-` right before it.
pub open spec fn p_calc_atom(s: Seq<char>, p: int) -> Option<(Ast, int)>
    decreases s.len() - p, 1nat,
{
    let q = skip_space(s, p);
    if q < p || q >= s.len() || p < 0 {
        None
    } else if s[q] == '(' {
        match p_sum(s, q + 1) {
            Some((e, p1)) => {
                let p2 = skip_space(s, p1);
                if 0 <= p2 < s.len() && s[p2] == ')' {
                    Some((e, p2 + 1))
                } else {
                    None
                }
            },
            None => None,
        }
    } else if is_word_char(s[q]) {
        let n = name_at(s, q);
        Some((Ast::NumberVariable(n.0), n.1))
    } else if is_digit(s[q]) {
        p_literal(s, q, false)
    } else if s[q] == '-' && q + 1 < s.len() && is_digit(s[q + 1]) {
        p_literal(s, q + 1, true)
    } else {
        None
    }
}

pub open spec fn p_product(s: Seq<char>, p: int) -> Option<(Ast, int)>
    decreases s.len() - p, 3nat,
{
    match p_calc_atom(s, p) {
        Some((a, p1)) => if p < p1 <= s.len() {
            p_product_rest(s, p1, a)
        } else {
            None
        },
        None => None,
    }
}

pub open spec fn p_product_rest(s: Seq<char>, p: int, acc: Ast) -> Option<(Ast, int)>
    decreases s.len() - p, 2nat,
{
    let q = skip_space(s, p);
    match arith_op_at(s, q) {
        Some(op) => if !is_additive(op) && q >= p {
            match p_calc_atom(s, q + 1) {
                Some((b, p2)) => if p < p2 <= s.len() {
                    p_product_rest(s, p2, Ast::Arith(op, Box::new(acc), Box::new(b)))
                } else {
                    None
                },
                None => Some((acc, p)),
            }
        } else {
            Some((acc, p))
        },
        None => Some((acc, p)),
    }
}

pub open spec fn p_sum(s: Seq<char>, p: int) -> Option<(Ast, int)>
    decreases s.len() - p, 5nat,
{
    match p_product(s, p) {
        Some((a, p1)) => if p < p1 <= s.len() {
            p_sum_rest(s, p1, a)
        } else {
            None
        },
        None => None,
    }
}

pub open spec fn p_sum_rest(s: Seq<char>, p: int, acc: Ast) -> Option<(Ast, int)>
    decreases s.len() - p, 4nat,
{
    let q = skip_space(s, p);
    match arith_op_at(s, q) {
        Some(op) => if is_additive(op) && q >= p {
            match p_product(s, q + 1) {
                Some((b, p2)) => if p < p2 <= s.len() {
                    p_sum_rest(s, p2, Ast::Arith(op, Box::new(acc), Box::new(b)))
                } else {
                    None
                },
                None => Some((acc, p)),
            }
        } else {
            Some((acc, p))
        },
        None => Some((acc, p)),
    }
}

/// `sum op sum` with one of the six comparison operators.
pub open spec fn p_comparison(s: Seq<char>, p: int) -> Option<(Ast, int)>
    decreases s.len() - p, 6nat,
{
    match p_sum(s, p) {
        Some((l, p1)) => {
            let q = skip_space(s, p1);
            match cmp_op_at(s, q) {
                Some((op, p2)) => if p2 > p {
                    match p_sum(s, p2) {
                        Some((r, p3)) => Some((Ast::Compare(op, Box::new(l), Box::new(r)), p3)),
                        None => None,
                    }
                } else {
                    None
                },
                None => None,
            }
        },
        None => None,
    }
}

/// A comparison; else `true`, `false`, a name, or `( or )`.
pub open spec fn p_logic_atom(s: Seq<char>, p: int) -> Option<(Ast, int)>
    decreases s.len() - p, 7nat,
{
    match p_comparison(s, p) {
        Some(c) => Some(c),
        None => {
            let q = skip_space(s, p);
            if q < p || q >= s.len() || p < 0 {
                None
            } else if is_word_char(s[q]) {
                let n = name_at(s, q);
                if n.0 == seq!['t', 'r', 'u', 'e'] {
                    Some((Ast::Boolean(true), n.1))
                } else if n.0 == seq!['f', 'a', 'l', 's', 'e'] {
                    Some((Ast::Boolean(false), n.1))
                } else {
                    Some((Ast::BooleanVariable(n.0), n.1))
                }
            } else if s[q] == '(' {
                match p_or(s, q + 1) {
                    Some((e, p1)) => {
                        let p2 = skip_space(s, p1);
                        if 0 <= p2 < s.len() && s[p2] == ')' {
                            Some((e, p2 + 1))
                        } else {
                            None
                        }
                    },
                    None => None,
                }
            } else {
                None
            }
        },
    }
}

pub open spec fn p_unary(s: Seq<char>, p: int) -> Option<(Ast, int)>
    decreases s.len() - p, 8nat,
{
    let q = skip_space(s, p);
    if 0 <= p <= q < s.len() && s[q] == '!' {
        match p_unary(s, q + 1) {
            Some((e, p1)) => Some((Ast::Not(Box::new(e)), p1)),
            None => None,
        }
    } else {
        p_logic_atom(s, p)
    }
}

pub open spec fn p_and(s: Seq<char>, p: int) -> Option<(Ast, int)>
    decreases s.len() - p, 10nat,
{
    match p_unary(s, p) {
        Some((a, p1)) => if p < p1 <= s.len() {
            p_and_rest(s, p1, a)
        } else {
            None
        },
        None => None,
    }
}

pub open spec fn p_and_rest(s: Seq<char>, p: int, acc: Ast) -> Option<(Ast, int)>
    decreases s.len() - p, 9nat,
{
    let q = skip_space(s, p);
    if q >= p && pair_at(s, q, '&') {
        match p_unary(s, q + 2) {
            Some((b, p2)) => if p < p2 <= s.len() {
                p_and_rest(s, p2, Ast::Logic(LogicOp::And, Box::new(acc), Box::new(b)))
            } else {
                None
            },
            None => Some((acc, p)),
        }
    } else {
        Some((acc, p))
    }
}

pub open spec fn p_or(s: Seq<char>, p: int) -> Option<(Ast, int)>
    decreases s.len() - p, 12nat,
{
    match p_and(s, p) {
        Some((a, p1)) => if p < p1 <= s.len() {
            p_or_rest(s, p1, a)
        } else {
            None
        },
        None => None,
    }
}

pub open spec fn p_or_rest(s: Seq<char>, p: int, acc: Ast) -> Option<(Ast, int)>
    decreases s.len() - p, 11nat,
{
    let q = skip_space(s, p);
    if q >= p && pair_at(s, q, '|') {
        match p_and(s, q + 2) {
            Some((b, p2)) => if p < p2 <= s.len() {
                p_or_rest(s, p2, Ast::Logic(LogicOp::Or, Box::new(acc), Box::new(b)))
            } else {
                None
            },
            None => Some((acc, p)),
        }
    } else {
        Some((acc, p))
    }
}

/// The tree that the whole of `s` reads as, if any.
pub open spec fn parse_spec(s: Seq<char>) -> Option<Ast> {
    match p_or(s, 0) {
        Some((e, p)) => if skip_space(s, p) == s.len() {
            Some(e)
        } else {
            None
        },
        None => None,
    }
}

} // verus!
