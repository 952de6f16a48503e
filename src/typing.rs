use vstd::prelude::*;

use crate::decimal::{Dec, MAX_MANTISSA, MAX_SCALE};
use crate::eval::{covers, declared, eval, lookup, EvalFault, ExprResult};
use crate::expr::Ast;
use crate::grammar::{
    digits_end, digits_value, is_digit, lemma_digits_value_grows, literal_end, literal_scale,
    p_and, p_and_rest, p_calc_atom, p_comparison, p_literal, p_logic_atom, p_or, p_or_rest,
    p_product, p_product_rest, p_sum, p_sum_rest, p_unary, parse_spec, skip_space,
};
use crate::parse::lemma_digits_end_ge;

verus! {

// Every tree the grammar gives is well typed: arithmetic over numbers,
// logic over booleans, comparisons of two numbers, and every literal in
// the decimal range. Such a tree, with bindings for all its names, can
// fail to evaluate only by arithmetic overflow.

/// `a` is an arithmetic expression with literals in range.
pub open spec fn number_typed(a: Ast) -> bool
    decreases a,
{
    match a {
        Ast::Number(n) => n.wf(),
        Ast::NumberVariable(_) => true,
        Ast::Arith(_, l, r) => number_typed(*l) && number_typed(*r),
        _ => false,
    }
}

/// `a` is a condition: logic over conditions, or a comparison of numbers.
pub open spec fn boolean_typed(a: Ast) -> bool
    decreases a,
{
    match a {
        Ast::Boolean(_) | Ast::BooleanVariable(_) => true,
        Ast::Logic(_, l, r) => boolean_typed(*l) && boolean_typed(*r),
        Ast::Not(e) => boolean_typed(*e),
        Ast::Compare(_, l, r) => number_typed(*l) && number_typed(*r),
        _ => false,
    }
}

pub open spec fn gives_number(r: Option<(Ast, int)>) -> bool {
    r matches Some((e, _)) ==> number_typed(e)
}

pub open spec fn gives_boolean(r: Option<(Ast, int)>) -> bool {
    r matches Some((e, _)) ==> boolean_typed(e)
}

proof fn lemma_literal(s: Seq<char>, p: int, negative: bool)
    requires
        0 <= p < s.len(),
    ensures
        gives_number(p_literal(s, p, negative)),
{
    let a = digits_end(s, p);
    lemma_digits_end_ge(s, p);
    lemma_digits_end_ge(s, a + 1);
    let e = literal_end(s, p);
    lemma_digits_value_grows(s, p, p, e);
    let m = digits_value(s, p, e);
    if m <= MAX_MANTISSA && literal_scale(s, p) <= MAX_SCALE {
        let v = if negative {
            -m
        } else {
            m
        };
        assert((v as i128) as int == v);
        assert((literal_scale(s, p) as u32) as int == literal_scale(s, p));
    }
}

proof fn lemma_calc_atom(s: Seq<char>, p: int)
    ensures
        gives_number(p_calc_atom(s, p)),
    decreases s.len() - p, 1nat,
{
    let q = skip_space(s, p);
    if q < p || q >= s.len() || p < 0 {
    } else if s[q] == '(' {
        lemma_sum(s, q + 1);
    } else if is_digit(s[q]) {
        lemma_literal(s, q, false);
    } else if q + 1 < s.len() {
        lemma_literal(s, q + 1, true);
    }
}

proof fn lemma_product(s: Seq<char>, p: int)
    ensures
        gives_number(p_product(s, p)),
    decreases s.len() - p, 3nat,
{
    lemma_calc_atom(s, p);
    match p_calc_atom(s, p) {
        Some((a, p1)) => if p < p1 <= s.len() {
            lemma_product_rest(s, p1, a);
        },
        None => {},
    }
}

proof fn lemma_product_rest(s: Seq<char>, p: int, acc: Ast)
    requires
        number_typed(acc),
    ensures
        gives_number(p_product_rest(s, p, acc)),
    decreases s.len() - p, 2nat,
{
    let q = skip_space(s, p);
    match crate::grammar::arith_op_at(s, q) {
        Some(op) => if q >= p {
            lemma_calc_atom(s, q + 1);
            match p_calc_atom(s, q + 1) {
                Some((b, p2)) => if p < p2 <= s.len() {
                    lemma_product_rest(s, p2, Ast::Arith(op, Box::new(acc), Box::new(b)));
                },
                None => {},
            }
        },
        None => {},
    }
}

proof fn lemma_sum(s: Seq<char>, p: int)
    ensures
        gives_number(p_sum(s, p)),
    decreases s.len() - p, 5nat,
{
    lemma_product(s, p);
    match p_product(s, p) {
        Some((a, p1)) => if p < p1 <= s.len() {
            lemma_sum_rest(s, p1, a);
        },
        None => {},
    }
}

proof fn lemma_sum_rest(s: Seq<char>, p: int, acc: Ast)
    requires
        number_typed(acc),
    ensures
        gives_number(p_sum_rest(s, p, acc)),
    decreases s.len() - p, 4nat,
{
    let q = skip_space(s, p);
    match crate::grammar::arith_op_at(s, q) {
        Some(op) => if q >= p {
            lemma_product(s, q + 1);
            match p_product(s, q + 1) {
                Some((b, p2)) => if p < p2 <= s.len() {
                    lemma_sum_rest(s, p2, Ast::Arith(op, Box::new(acc), Box::new(b)));
                },
                None => {},
            }
        },
        None => {},
    }
}

proof fn lemma_comparison(s: Seq<char>, p: int)
    ensures
        gives_boolean(p_comparison(s, p)),
    decreases s.len() - p, 6nat,
{
    lemma_sum(s, p);
    match p_sum(s, p) {
        Some((l, p1)) => {
            let q = skip_space(s, p1);
            match crate::grammar::cmp_op_at(s, q) {
                Some((op, p2)) => if p2 > p {
                    lemma_sum(s, p2);
                },
                None => {},
            }
        },
        None => {},
    }
}

proof fn lemma_logic_atom(s: Seq<char>, p: int)
    ensures
        gives_boolean(p_logic_atom(s, p)),
    decreases s.len() - p, 7nat,
{
    lemma_comparison(s, p);
    let q = skip_space(s, p);
    if !(q < p || q >= s.len() || p < 0) {
        lemma_or(s, q + 1);
    }
}

proof fn lemma_unary(s: Seq<char>, p: int)
    ensures
        gives_boolean(p_unary(s, p)),
    decreases s.len() - p, 8nat,
{
    let q = skip_space(s, p);
    if 0 <= p <= q < s.len() && s[q] == '!' {
        lemma_unary(s, q + 1);
    } else {
        lemma_logic_atom(s, p);
    }
}

proof fn lemma_and(s: Seq<char>, p: int)
    ensures
        gives_boolean(p_and(s, p)),
    decreases s.len() - p, 10nat,
{
    lemma_unary(s, p);
    match p_unary(s, p) {
        Some((a, p1)) => if p < p1 <= s.len() {
            lemma_and_rest(s, p1, a);
        },
        None => {},
    }
}

proof fn lemma_and_rest(s: Seq<char>, p: int, acc: Ast)
    requires
        boolean_typed(acc),
    ensures
        gives_boolean(p_and_rest(s, p, acc)),
    decreases s.len() - p, 9nat,
{
    let q = skip_space(s, p);
    if q >= p && crate::grammar::pair_at(s, q, '&') {
        lemma_unary(s, q + 2);
        match p_unary(s, q + 2) {
            Some((b, p2)) => if p < p2 <= s.len() {
                lemma_and_rest(
                    s,
                    p2,
                    Ast::Logic(crate::expr::LogicOp::And, Box::new(acc), Box::new(b)),
                );
            },
            None => {},
        }
    }
}

proof fn lemma_or(s: Seq<char>, p: int)
    ensures
        gives_boolean(p_or(s, p)),
    decreases s.len() - p, 12nat,
{
    lemma_and(s, p);
    match p_and(s, p) {
        Some((a, p1)) => if p < p1 <= s.len() {
            lemma_or_rest(s, p1, a);
        },
        None => {},
    }
}

proof fn lemma_or_rest(s: Seq<char>, p: int, acc: Ast)
    requires
        boolean_typed(acc),
    ensures
        gives_boolean(p_or_rest(s, p, acc)),
    decreases s.len() - p, 11nat,
{
    let q = skip_space(s, p);
    if q >= p && crate::grammar::pair_at(s, q, '|') {
        lemma_and(s, q + 2);
        match p_and(s, q + 2) {
            Some((b, p2)) => if p < p2 <= s.len() {
                lemma_or_rest(
                    s,
                    p2,
                    Ast::Logic(crate::expr::LogicOp::Or, Box::new(acc), Box::new(b)),
                );
            },
            None => {},
        }
    }
}

/// Whatever the grammar reads from a text is a well-typed condition.
pub proof fn lemma_parsed_is_condition(s: Seq<char>)
    ensures
        parse_spec(s) matches Some(a) ==> boolean_typed(a),
{
    lemma_or(s, 0);
}

/// Every bound number lies in the decimal range.
pub open spec fn numbers_in_range(nv: Seq<(Seq<char>, Dec)>) -> bool {
    forall|i: int| 0 <= i < nv.len() ==> (#[trigger] nv[i]).1.wf()
}

proof fn lemma_lookup_in_range(nv: Seq<(Seq<char>, Dec)>, name: Seq<char>)
    requires
        numbers_in_range(nv),
    ensures
        lookup(nv, name) matches Some(v) ==> v.wf(),
    decreases nv.len(),
{
    if nv.len() > 0 {
        assert(nv[nv.len() - 1] == nv.last());
        assert forall|i: int| 0 <= i < nv.drop_last().len() implies (#[trigger] nv.drop_last()[i]).1.wf() by {
            assert(nv.drop_last()[i] == nv[i]);
        }
        lemma_lookup_in_range(nv.drop_last(), name);
    }
}

/// A well-typed tree whose names are all bound, to numbers in range,
/// evaluates to a value of its type, or fails by arithmetic overflow.
pub proof fn lemma_typed_evaluates(
    a: Ast,
    bk: Seq<Seq<char>>,
    nk: Seq<Seq<char>>,
    bv: Seq<(Seq<char>, bool)>,
    nv: Seq<(Seq<char>, Dec)>,
    dp: nat,
)
    requires
        number_typed(a) || boolean_typed(a),
        declared(a, bk, nk),
        covers(bv, bk),
        covers(nv, nk),
        numbers_in_range(nv),
    ensures
        number_typed(a) ==> (eval(a, bv, nv, dp) matches Ok(ExprResult::Number(_)) || eval(
            a,
            bv,
            nv,
            dp,
        ) matches Err(EvalFault::Overflow(_))),
        boolean_typed(a) ==> (eval(a, bv, nv, dp) matches Ok(ExprResult::Boolean(_)) || eval(
            a,
            bv,
            nv,
            dp,
        ) matches Err(EvalFault::Overflow(_))),
    decreases a,
{
    match a {
        Ast::NumberVariable(n) => {
            let i = choose|i: int| 0 <= i < nk.len() && nk[i] == n;
            assert(lookup(nv, nk[i]) is Some);
            lemma_lookup_in_range(nv, n);
        },
        Ast::BooleanVariable(n) => {
            let i = choose|i: int| 0 <= i < bk.len() && bk[i] == n;
            assert(lookup(bv, bk[i]) is Some);
        },
        Ast::Number(_) | Ast::Boolean(_) => {},
        Ast::Arith(_, l, r) | Ast::Logic(_, l, r) | Ast::Compare(_, l, r) => {
            lemma_typed_evaluates(*l, bk, nk, bv, nv, dp);
            lemma_typed_evaluates(*r, bk, nk, bv, nv, dp);
        },
        Ast::Not(e) => {
            lemma_typed_evaluates(*e, bk, nk, bv, nv, dp);
        },
    }
}

} // verus!
