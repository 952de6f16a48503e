use vstd::prelude::*;

use crate::decimal::{Dec, MAX_MANTISSA, MAX_SCALE};
use crate::expr::{ArithOp, Ast, CmpOp, Expr};
use crate::grammar::{
    arith_op_at, cmp_op_at, digits_end, digits_value, is_digit, is_space, is_word_char,
    literal_end, literal_scale, name_at, p_and, p_and_rest, p_calc_atom, p_comparison, p_literal,
    p_logic_atom, p_or, p_or_rest, p_product, p_product_rest, p_sum, p_sum_rest, p_unary, pair_at,
    parse_spec, skip_space, word_end, lemma_digits_value_grows,
};

verus! {

/// A syntax error: where reading stopped, and the text from there on.
#[derive(Debug, Clone)]
pub struct ParseError {
    pub position: usize,
    pub fragment: String,
}

/// `r` and `g` give the same tree and the same end position.
pub open spec fn agrees(r: Option<(Expr, usize)>, g: Option<(Ast, int)>) -> bool {
    match (r, g) {
        (Some((e, q)), Some((a, q2))) => e@ == a && q == q2,
        (None, None) => true,
        _ => false,
    }
}

pub open spec fn ends_after(r: Option<(Expr, usize)>, p: int, n: int) -> bool {
    r matches Some((_, q)) ==> p < q <= n
}

fn is_space_char(c: char) -> (r: bool)
    ensures
        r == is_space(c),
{
    c == ' ' || c == '\t' || c == '\n' || c == '\r'
}

fn is_word(c: char) -> (r: bool)
    ensures
        r == is_word_char(c),
{
    ('a' <= c && c <= 'z') || ('A' <= c && c <= 'Z') || ('\u{4e00}' <= c && c <= '\u{9fa5}')
        || c == ':' || c == '_'
}

fn is_digit_char(c: char) -> (r: bool)
    ensures
        r == is_digit(c),
{
    '0' <= c && c <= '9'
}

fn skip_ws(s: &Vec<char>, p: usize) -> (r: usize)
    requires
        p <= s@.len(),
    ensures
        r == skip_space(s@, p as int),
        p <= r <= s@.len(),
{
    let mut i = p;
    while i < s.len() && is_space_char(s[i])
        invariant
            p <= i <= s@.len(),
            skip_space(s@, i as int) == skip_space(s@, p as int),
        decreases s@.len() - i,
    {
        i = i + 1;
    }
    i
}

fn word_run_end(s: &Vec<char>, p: usize) -> (r: usize)
    requires
        p <= s@.len(),
    ensures
        r == word_end(s@, p as int),
        p <= r <= s@.len(),
        p < s@.len() && is_word_char(s@[p as int]) ==> p < r,
{
    let mut i = p;
    while i < s.len() && is_word(s[i])
        invariant
            p <= i <= s@.len(),
            word_end(s@, i as int) == word_end(s@, p as int),
        decreases s@.len() - i,
    {
        i = i + 1;
    }
    proof {
        if p < s@.len() && is_word_char(s@[p as int]) {
            lemma_word_end_moves(s@, p as int);
        }
    }
    i
}

fn digit_run_end(s: &Vec<char>, p: usize) -> (r: usize)
    requires
        p <= s@.len(),
    ensures
        r == digits_end(s@, p as int),
        p <= r <= s@.len(),
{
    let mut i = p;
    while i < s.len() && is_digit_char(s[i])
        invariant
            p <= i <= s@.len(),
            digits_end(s@, i as int) == digits_end(s@, p as int),
        decreases s@.len() - i,
    {
        i = i + 1;
    }
    i
}

proof fn lemma_word_end_ge(s: Seq<char>, p: int)
    ensures
        word_end(s, p) >= p,
    decreases s.len() - p,
{
    if 0 <= p < s.len() && is_word_char(s[p]) {
        lemma_word_end_ge(s, p + 1);
    }
}

proof fn lemma_word_end_moves(s: Seq<char>, p: int)
    requires
        0 <= p < s.len(),
        is_word_char(s[p]),
    ensures
        word_end(s, p) > p,
{
    lemma_word_end_ge(s, p + 1);
}

pub(crate) proof fn lemma_digits_end_ge(s: Seq<char>, p: int)
    ensures
        digits_end(s, p) >= p,
    decreases s.len() - p,
{
    if 0 <= p < s.len() && is_digit(s[p]) {
        lemma_digits_end_ge(s, p + 1);
    }
}

proof fn lemma_digits_end_moves(s: Seq<char>, p: int)
    requires
        0 <= p < s.len(),
        is_digit(s[p]),
    ensures
        digits_end(s, p) > p,
{
    lemma_digits_end_ge(s, p + 1);
}

/// Reads the name that starts at `p`.
fn read_name(text: &str, s: &Vec<char>, p: usize) -> (r: (String, usize))
    requires
        text@ == s@,
        p < s@.len(),
        is_word_char(s@[p as int]),
    ensures
        r.0@ == name_at(s@, p as int).0,
        r.1 == name_at(s@, p as int).1,
        p < r.1 <= s@.len(),
{
    let ghost target = name_at(s@, p as int);
    let mut name = String::new();
    let mut cur = p;
    proof {
        lemma_word_end_moves(s@, p as int);
    }
    loop
        invariant
            text@ == s@,
            p <= cur < s@.len(),
            is_word_char(s@[cur as int]),
            target.0 == name@ + name_at(s@, cur as int).0,
            target.1 == name_at(s@, cur as int).1,
            target == name_at(s@, p as int),
        decreases s@.len() - cur,
    {
        proof {
            lemma_word_end_moves(s@, cur as int);
            reveal_strlit(" ");
        }
        let w = word_run_end(s, cur);
        let k = skip_ws(s, w);
        let ghost before = name@;
        let piece = text.substring_char(cur, w);
        name.append(piece);
        if w < k && k < s.len() && is_word(s[k]) {
            name.append(" ");
            assert(" "@ =~= seq![' ']);
            let ghost rest = name_at(s@, k as int);
            assert(name@ + rest.0 =~= before + (s@.subrange(cur as int, w as int) + seq![' ']
                + rest.0));
            proof {
                lemma_word_end_moves(s@, k as int);
            }
            cur = k;
        } else {
            assert(name_at(s@, cur as int) == (s@.subrange(cur as int, w as int), w as int));
            assert(name@ =~= before + s@.subrange(cur as int, w as int));
            return (name, w);
        }
    }
}

/// Reads an unsigned literal at `p`, negated when `negative`.
fn read_literal(s: &Vec<char>, p: usize, negative: bool) -> (r: Option<(Expr, usize)>)
    requires
        p < s@.len(),
        is_digit(s@[p as int]),
    ensures
        agrees(r, p_literal(s@, p as int, negative)),
        ends_after(r, p as int, s@.len() as int),
{
    proof {
        lemma_digits_end_moves(s@, p as int);
    }
    let a = digit_run_end(s, p);
    let mut e = a;
    let mut scale: usize = 0;
    if a < s.len() && a + 1 < s.len() && s[a] == '.' && is_digit_char(s[a + 1]) {
        e = digit_run_end(s, a + 1);
        scale = e - a - 1;
    }
    assert(e == literal_end(s@, p as int));
    assert(scale == literal_scale(s@, p as int));
    if scale > MAX_SCALE as usize {
        return None;
    }
    let mut m: i128 = 0;
    let mut i = p;
    while i < e
        invariant
            p <= i <= e <= s@.len(),
            e == literal_end(s@, p as int),
            scale == literal_scale(s@, p as int),
            scale <= MAX_SCALE,
            m == digits_value(s@, p as int, i as int),
            0 <= m <= MAX_MANTISSA,
        decreases e - i,
    {
        let c = s[i];
        if is_digit_char(c) {
            let d = (c as u32 - '0' as u32) as i128;
            if m > (MAX_MANTISSA - d) / 10 {
                assert(m * 10 + d > MAX_MANTISSA) by (nonlinear_arith)
                    requires
                        m > (MAX_MANTISSA - d) / 10,
                        0 <= d <= 9,
                        MAX_MANTISSA == 79228162514264337593543950335i128,
                ;
                assert(digits_value(s@, p as int, i + 1) == m * 10 + d);
                proof {
                    lemma_digits_value_grows(s@, p as int, i + 1, e as int);
                }
                return None;
            }
            m = m * 10 + d;
        }
        i = i + 1;
    }
    let v = if negative {
        -m
    } else {
        m
    };
    Some((Expr::Number(Dec { mantissa: v, scale: scale as u32 }), e))
}

fn arith(op: ArithOp, l: Expr, r: Expr) -> (e: Expr)
    ensures
        e@ == Ast::Arith(op, Box::new(l@), Box::new(r@)),
{
    match op {
        ArithOp::Plus => Expr::Plus(Box::new(l), Box::new(r)),
        ArithOp::Minus => Expr::Minus(Box::new(l), Box::new(r)),
        ArithOp::Times => Expr::Times(Box::new(l), Box::new(r)),
        ArithOp::Divide => Expr::Divide(Box::new(l), Box::new(r)),
    }
}

fn compare(op: CmpOp, l: Expr, r: Expr) -> (e: Expr)
    ensures
        e@ == Ast::Compare(op, Box::new(l@), Box::new(r@)),
{
    match op {
        CmpOp::Equal => Expr::Equal(Box::new(l), Box::new(r)),
        CmpOp::NotEqual => Expr::NotEqual(Box::new(l), Box::new(r)),
        CmpOp::LessThan => Expr::LessThan(Box::new(l), Box::new(r)),
        CmpOp::GreaterThan => Expr::GreaterThan(Box::new(l), Box::new(r)),
        CmpOp::LessThanEqual => Expr::LessThanEqual(Box::new(l), Box::new(r)),
        CmpOp::GreaterThanEqual => Expr::GreaterThanEqual(Box::new(l), Box::new(r)),
    }
}

fn arith_op(s: &Vec<char>, q: usize) -> (r: Option<ArithOp>)
    requires
        q <= s@.len(),
    ensures
        r == arith_op_at(s@, q as int),
        r is Some ==> q < s@.len(),
{
    if q < s.len() {
        let c = s[q];
        if c == '+' {
            Some(ArithOp::Plus)
        } else if c == '-' {
            Some(ArithOp::Minus)
        } else if c == '*' {
            Some(ArithOp::Times)
        } else if c == '/' {
            Some(ArithOp::Divide)
        } else {
            None
        }
    } else {
        None
    }
}

fn cmp_op(s: &Vec<char>, q: usize) -> (r: Option<(CmpOp, usize)>)
    requires
        q <= s@.len(),
    ensures
        match (r, cmp_op_at(s@, q as int)) {
            (Some((o, e)), Some((o2, e2))) => o == o2 && e == e2 && q < e <= s@.len(),
            (None, None) => true,
            _ => false,
        },
{
    if q >= s.len() {
        return None;
    }
    let c = s[q];
    let two = q + 1 < s.len();
    if c == '=' {
        if two && s[q + 1] == '=' {
            Some((CmpOp::Equal, q + 2))
        } else {
            Some((CmpOp::Equal, q + 1))
        }
    } else if c == '!' && two && s[q + 1] == '=' {
        Some((CmpOp::NotEqual, q + 2))
    } else if c == '≠' {
        Some((CmpOp::NotEqual, q + 1))
    } else if c == '<' {
        if two && s[q + 1] == '=' {
            Some((CmpOp::LessThanEqual, q + 2))
        } else {
            Some((CmpOp::LessThan, q + 1))
        }
    } else if c == '≤' {
        Some((CmpOp::LessThanEqual, q + 1))
    } else if c == '>' {
        if two && s[q + 1] == '=' {
            Some((CmpOp::GreaterThanEqual, q + 2))
        } else {
            Some((CmpOp::GreaterThan, q + 1))
        }
    } else if c == '≥' {
        Some((CmpOp::GreaterThanEqual, q + 1))
    } else {
        None
    }
}

fn pair(s: &Vec<char>, q: usize, c: char) -> (r: bool)
    requires
        q <= s@.len(),
    ensures
        r == pair_at(s@, q as int, c),
        r ==> q + 1 < s@.len(),
{
    q < s.len() && q + 1 < s.len() && s[q] == c && s[q + 1] == c
}

fn calc_atom(text: &str, s: &Vec<char>, p: usize) -> (r: Option<(Expr, usize)>)
    requires
        text@ == s@,
        p <= s@.len(),
    ensures
        agrees(r, p_calc_atom(s@, p as int)),
        ends_after(r, p as int, s@.len() as int),
    decreases s@.len() - p, 1nat,
{
    let q = skip_ws(s, p);
    if q >= s.len() {
        return None;
    }
    let c = s[q];
    if c == '(' {
        match sum(text, s, q + 1) {
            Some((e, p1)) => {
                let p2 = skip_ws(s, p1);
                if p2 < s.len() && s[p2] == ')' {
                    Some((e, p2 + 1))
                } else {
                    None
                }
            },
            None => None,
        }
    } else if is_word(c) {
        let (name, end) = read_name(text, s, q);
        Some((Expr::NumberVariable(name), end))
    } else if is_digit_char(c) {
        read_literal(s, q, false)
    } else if c == '-' && q + 1 < s.len() && is_digit_char(s[q + 1]) {
        read_literal(s, q + 1, true)
    } else {
        None
    }
}

fn product(text: &str, s: &Vec<char>, p: usize) -> (r: Option<(Expr, usize)>)
    requires
        text@ == s@,
        p <= s@.len(),
    ensures
        agrees(r, p_product(s@, p as int)),
        ends_after(r, p as int, s@.len() as int),
    decreases s@.len() - p, 3nat,
{
    let (mut acc, mut cur) = match calc_atom(text, s, p) {
        Some(x) => x,
        None => {
            return None;
        },
    };
    let n = s.len();
    loop
        invariant
            n == s@.len(),
            text@ == s@,
            p < cur <= s@.len(),
            p_product_rest(s@, cur as int, acc@) == p_product(s@, p as int),
        decreases s@.len() - cur,
    {
        let q = skip_ws(s, cur);
        match arith_op(s, q) {
            Some(op) => {
                if op == ArithOp::Plus || op == ArithOp::Minus {
                    return Some((acc, cur));
                }
                match calc_atom(text, s, q + 1) {
                    Some((b, p2)) => {
                        acc = arith(op, acc, b);
                        cur = p2;
                    },
                    None => {
                        return Some((acc, cur));
                    },
                }
            },
            None => {
                return Some((acc, cur));
            },
        }
    }
}

fn sum(text: &str, s: &Vec<char>, p: usize) -> (r: Option<(Expr, usize)>)
    requires
        text@ == s@,
        p <= s@.len(),
    ensures
        agrees(r, p_sum(s@, p as int)),
        ends_after(r, p as int, s@.len() as int),
    decreases s@.len() - p, 5nat,
{
    let (mut acc, mut cur) = match product(text, s, p) {
        Some(x) => x,
        None => {
            return None;
        },
    };
    let n = s.len();
    loop
        invariant
            n == s@.len(),
            text@ == s@,
            p < cur <= s@.len(),
            p_sum_rest(s@, cur as int, acc@) == p_sum(s@, p as int),
        decreases s@.len() - cur,
    {
        let q = skip_ws(s, cur);
        match arith_op(s, q) {
            Some(op) => {
                if op == ArithOp::Times || op == ArithOp::Divide {
                    return Some((acc, cur));
                }
                match product(text, s, q + 1) {
                    Some((b, p2)) => {
                        acc = arith(op, acc, b);
                        cur = p2;
                    },
                    None => {
                        return Some((acc, cur));
                    },
                }
            },
            None => {
                return Some((acc, cur));
            },
        }
    }
}

fn comparison(text: &str, s: &Vec<char>, p: usize) -> (r: Option<(Expr, usize)>)
    requires
        text@ == s@,
        p <= s@.len(),
    ensures
        agrees(r, p_comparison(s@, p as int)),
        ends_after(r, p as int, s@.len() as int),
    decreases s@.len() - p, 6nat,
{
    match sum(text, s, p) {
        Some((l, p1)) => {
            let q = skip_ws(s, p1);
            match cmp_op(s, q) {
                Some((op, p2)) => match sum(text, s, p2) {
                    Some((r, p3)) => Some((compare(op, l, r), p3)),
                    None => None,
                },
                None => None,
            }
        },
        None => None,
    }
}

fn logic_atom(text: &str, s: &Vec<char>, p: usize) -> (r: Option<(Expr, usize)>)
    requires
        text@ == s@,
        p <= s@.len(),
    ensures
        agrees(r, p_logic_atom(s@, p as int)),
        ends_after(r, p as int, s@.len() as int),
    decreases s@.len() - p, 7nat,
{
    match comparison(text, s, p) {
        Some(c) => {
            return Some(c);
        },
        None => {},
    }
    let q = skip_ws(s, p);
    if q >= s.len() {
        return None;
    }
    let c = s[q];
    if is_word(c) {
        let (name, end) = read_name(text, s, q);
        let t = "true".to_owned();
        let f = "false".to_owned();
        let is_true = name == t;
        let is_false = name == f;
        proof {
            reveal_strlit("true");
            reveal_strlit("false");
            assert(seq!['t', 'r', 'u', 'e'] =~= "true"@);
            assert(seq!['f', 'a', 'l', 's', 'e'] =~= "false"@);
        }
        if is_true {
            Some((Expr::Boolean(true), end))
        } else if is_false {
            Some((Expr::Boolean(false), end))
        } else {
            Some((Expr::BooleanVariable(name), end))
        }
    } else if c == '(' {
        match or_expr(text, s, q + 1) {
            Some((e, p1)) => {
                let p2 = skip_ws(s, p1);
                if p2 < s.len() && s[p2] == ')' {
                    Some((e, p2 + 1))
                } else {
                    None
                }
            },
            None => None,
        }
    } else {
        None
    }
}

fn unary(text: &str, s: &Vec<char>, p: usize) -> (r: Option<(Expr, usize)>)
    requires
        text@ == s@,
        p <= s@.len(),
    ensures
        agrees(r, p_unary(s@, p as int)),
        ends_after(r, p as int, s@.len() as int),
    decreases s@.len() - p, 8nat,
{
    let q = skip_ws(s, p);
    if q < s.len() && s[q] == '!' {
        match unary(text, s, q + 1) {
            Some((e, p1)) => Some((Expr::Not(Box::new(e)), p1)),
            None => None,
        }
    } else {
        logic_atom(text, s, p)
    }
}

fn and_expr(text: &str, s: &Vec<char>, p: usize) -> (r: Option<(Expr, usize)>)
    requires
        text@ == s@,
        p <= s@.len(),
    ensures
        agrees(r, p_and(s@, p as int)),
        ends_after(r, p as int, s@.len() as int),
    decreases s@.len() - p, 10nat,
{
    let (mut acc, mut cur) = match unary(text, s, p) {
        Some(x) => x,
        None => {
            return None;
        },
    };
    let n = s.len();
    loop
        invariant
            n == s@.len(),
            text@ == s@,
            p < cur <= s@.len(),
            p_and_rest(s@, cur as int, acc@) == p_and(s@, p as int),
        decreases s@.len() - cur,
    {
        let q = skip_ws(s, cur);
        if !pair(s, q, '&') {
            return Some((acc, cur));
        }
        match unary(text, s, q + 2) {
            Some((b, p2)) => {
                acc = Expr::And(Box::new(acc), Box::new(b));
                cur = p2;
            },
            None => {
                return Some((acc, cur));
            },
        }
    }
}

fn or_expr(text: &str, s: &Vec<char>, p: usize) -> (r: Option<(Expr, usize)>)
    requires
        text@ == s@,
        p <= s@.len(),
    ensures
        agrees(r, p_or(s@, p as int)),
        ends_after(r, p as int, s@.len() as int),
    decreases s@.len() - p, 12nat,
{
    let (mut acc, mut cur) = match and_expr(text, s, p) {
        Some(x) => x,
        None => {
            return None;
        },
    };
    let n = s.len();
    loop
        invariant
            n == s@.len(),
            text@ == s@,
            p < cur <= s@.len(),
            p_or_rest(s@, cur as int, acc@) == p_or(s@, p as int),
        decreases s@.len() - cur,
    {
        let q = skip_ws(s, cur);
        if !pair(s, q, '|') {
            return Some((acc, cur));
        }
        match and_expr(text, s, q + 2) {
            Some((b, p2)) => {
                acc = Expr::Or(Box::new(acc), Box::new(b));
                cur = p2;
            },
            None => {
                return Some((acc, cur));
            },
        }
    }
}

/// The characters of `text`, in order.
pub fn chars_of(text: &str) -> (r: Vec<char>)
    ensures
        r@ == text@,
{
    let n = text.unicode_len();
    let mut out: Vec<char> = Vec::new();
    let mut i: usize = 0;
    while i < n
        invariant
            n == text@.len(),
            i <= n,
            out@ == text@.subrange(0, i as int),
        decreases n - i,
    {
        out.push(text.get_char(i));
        i = i + 1;
        assert(out@ =~= text@.subrange(0, i as int));
    }
    assert(out@ =~= text@);
    out
}

/// Parses a rule expression. The whole text must be one expression; on
/// failure nothing but the error is returned.
pub fn parse(input: &str) -> (r: Result<Expr, ParseError>)
    ensures
        r is Ok <==> parse_spec(input@) is Some,
        r matches Ok(e) ==> parse_spec(input@) == Some(e@),
        r matches Err(err) ==> err.position <= input@.len() && err.fragment@ == input@.subrange(
            err.position as int,
            input@.len() as int,
        ),
{
    let s = chars_of(input);
    let n = s.len();
    let stop = match or_expr(input, &s, 0) {
        Some((e, p)) => {
            let q = skip_ws(&s, p);
            if q == n {
                return Ok(e);
            }
            q
        },
        None => 0,
    };
    let fragment = input.substring_char(stop, n).to_string();
    Err(ParseError { position: stop, fragment })
}

} // verus!
