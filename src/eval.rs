use vstd::prelude::*;

use crate::decimal::{
    compare_values, decimal_add, decimal_difference, decimal_div, decimal_mul, decimal_product,
    decimal_quotient, decimal_sub, decimal_sum, rounded_mantissa, rounded_scale, Dec,
};
use crate::expr::{ArithOp, Ast, CmpOp, Expr, ExprVarKey, LogicOp};
use crate::grammar::parse_spec;
use crate::parse::{parse, ParseError};

verus! {

/// The value of an expression.
#[derive(Clone, Copy, Debug, PartialEq)]
pub enum ExprResult {
    Number(Dec),
    Boolean(bool),
}

/// An operator, for error reports.
#[derive(Clone, Copy, Debug, PartialEq, Eq, Structural)]
pub enum Operator {
    Arith(ArithOp),
    Logic(LogicOp),
    Not,
    Compare(CmpOp),
}

/// Why an evaluation failed.
#[derive(Clone, Debug)]
pub enum EvalError {
    /// No binding for this number variable.
    MissingNumber(String),
    /// No binding for this boolean variable.
    MissingBoolean(String),
    /// The operator got operands of the wrong type.
    Operand(Operator),
    /// The arithmetic result does not fit the decimal range.
    Overflow(ArithOp),
    /// A literal or a bound number lies outside the decimal range.
    InvalidNumber,
}

/// The model of an `EvalError`.
pub enum EvalFault {
    MissingNumber(Seq<char>),
    MissingBoolean(Seq<char>),
    Operand(Operator),
    Overflow(ArithOp),
    InvalidNumber,
}

impl EvalError {
    pub open spec fn view(&self) -> EvalFault {
        match self {
            EvalError::MissingNumber(n) => EvalFault::MissingNumber(n@),
            EvalError::MissingBoolean(n) => EvalFault::MissingBoolean(n@),
            EvalError::Operand(o) => EvalFault::Operand(*o),
            EvalError::Overflow(o) => EvalFault::Overflow(*o),
            EvalError::InvalidNumber => EvalFault::InvalidNumber,
        }
    }
}

/// Variable bindings; a later entry for a name overrides an earlier one.
#[derive(Clone, Debug)]
pub struct ExprVar {
    pub boolean_vars: Vec<(String, bool)>,
    pub number_vars: Vec<(String, Dec)>,
}

/// The entries with each name seen as its characters.
pub open spec fn entries_view<V>(v: Seq<(String, V)>) -> Seq<(Seq<char>, V)> {
    v.map_values(|p: (String, V)| (p.0@, p.1))
}

/// The entries whose name is among `keys`, in order.
pub open spec fn restrict<V>(entries: Seq<(Seq<char>, V)>, keys: Seq<Seq<char>>) -> Seq<
    (Seq<char>, V),
>
    decreases entries.len(),
{
    if entries.len() == 0 {
        entries
    } else if keys.contains(entries.last().0) {
        restrict(entries.drop_last(), keys).push(entries.last())
    } else {
        restrict(entries.drop_last(), keys)
    }
}

/// The value bound to `name`: that of its last entry.
pub open spec fn lookup<V>(entries: Seq<(Seq<char>, V)>, name: Seq<char>) -> Option<V>
    decreases entries.len(),
{
    if entries.len() == 0 {
        None
    } else if entries.last().0 == name {
        Some(entries.last().1)
    } else {
        lookup(entries.drop_last(), name)
    }
}

impl ExprVar {
    pub open spec fn booleans(&self) -> Seq<(Seq<char>, bool)> {
        entries_view(self.boolean_vars@)
    }

    pub open spec fn numbers(&self) -> Seq<(Seq<char>, Dec)> {
        entries_view(self.number_vars@)
    }

    pub fn default() -> (r: ExprVar)
        ensures
            r.boolean_vars@.len() == 0,
            r.number_vars@.len() == 0,
    {
        ExprVar { boolean_vars: Vec::new(), number_vars: Vec::new() }
    }

    /// Binds a boolean variable, overriding an earlier binding of the name.
    pub fn insert_boolean(&mut self, name: String, value: bool)
        ensures
            final(self).boolean_vars@ == old(self).boolean_vars@.push((name, value)),
            final(self).number_vars@ == old(self).number_vars@,
    {
        self.boolean_vars.push((name, value));
    }

    /// Binds a number variable, overriding an earlier binding of the name.
    pub fn insert_number(&mut self, name: String, value: Dec)
        ensures
            final(self).number_vars@ == old(self).number_vars@.push((name, value)),
            final(self).boolean_vars@ == old(self).boolean_vars@,
    {
        self.number_vars.push((name, value));
    }
}

pub(crate) fn find<V: Copy>(entries: &Vec<(String, V)>, name: &String) -> (r: Option<V>)
    ensures
        r == lookup(entries_view(entries@), name@),
{
    let mut i = entries.len();
    assert(entries@.subrange(0, i as int) =~= entries@);
    while i > 0
        invariant
            i <= entries@.len(),
            lookup(entries_view(entries@), name@) == lookup(
                entries_view(entries@.subrange(0, i as int)),
                name@,
            ),
        decreases i,
    {
        let ghost pre = entries_view(entries@.subrange(0, i as int));
        assert(pre.drop_last() =~= entries_view(entries@.subrange(0, i - 1)));
        if entries[i - 1].0 == *name {
            return Some(entries[i - 1].1);
        }
        i = i - 1;
    }
    None
}

pub open spec fn arith_result(op: ArithOp, x: Dec, y: Dec) -> Option<Dec> {
    match op {
        ArithOp::Plus => decimal_sum(x, y),
        ArithOp::Minus => decimal_difference(x, y),
        ArithOp::Times => decimal_product(x, y),
        ArithOp::Divide => decimal_quotient(x, y),
    }
}

pub open spec fn rounded(x: Dec, dp: nat) -> Dec {
    Dec { mantissa: rounded_mantissa(x, dp) as i128, scale: rounded_scale(x, dp) as u32 }
}

/// Whether `op` holds of two numbers that compare as `o`.
pub open spec fn ordering_satisfies(op: CmpOp, o: core::cmp::Ordering) -> bool {
    match op {
        CmpOp::Equal => o == core::cmp::Ordering::Equal,
        CmpOp::NotEqual => o != core::cmp::Ordering::Equal,
        CmpOp::LessThan => o == core::cmp::Ordering::Less,
        CmpOp::GreaterThan => o == core::cmp::Ordering::Greater,
        CmpOp::LessThanEqual => o != core::cmp::Ordering::Greater,
        CmpOp::GreaterThanEqual => o != core::cmp::Ordering::Less,
    }
}

/// The value of `a` under the bindings, numbers compared after rounding
/// both sides to `dp` fractional digits.
pub open spec fn eval(
    a: Ast,
    bv: Seq<(Seq<char>, bool)>,
    nv: Seq<(Seq<char>, Dec)>,
    dp: nat,
) -> Result<ExprResult, EvalFault>
    decreases a,
{
    match a {
        Ast::Number(n) => if n.wf() {
            Ok(ExprResult::Number(n))
        } else {
            Err(EvalFault::InvalidNumber)
        },
        Ast::Boolean(b) => Ok(ExprResult::Boolean(b)),
        Ast::NumberVariable(name) => match lookup(nv, name) {
            Some(v) => if v.wf() {
                Ok(ExprResult::Number(v))
            } else {
                Err(EvalFault::InvalidNumber)
            },
            None => Err(EvalFault::MissingNumber(name)),
        },
        Ast::BooleanVariable(name) => match lookup(bv, name) {
            Some(v) => Ok(ExprResult::Boolean(v)),
            None => Err(EvalFault::MissingBoolean(name)),
        },
        Ast::Arith(op, l, r) => match (eval(*l, bv, nv, dp), eval(*r, bv, nv, dp)) {
            (Err(e), _) => Err(e),
            (Ok(_), Err(e)) => Err(e),
            (Ok(x), Ok(y)) => arith_apply(op, x, y),
        },
        Ast::Logic(op, l, r) => match (eval(*l, bv, nv, dp), eval(*r, bv, nv, dp)) {
            (Err(e), _) => Err(e),
            (Ok(_), Err(e)) => Err(e),
            (Ok(x), Ok(y)) => logic_apply(op, x, y),
        },
        Ast::Not(e) => match eval(*e, bv, nv, dp) {
            Err(f) => Err(f),
            Ok(ExprResult::Boolean(x)) => Ok(ExprResult::Boolean(!x)),
            _ => Err(EvalFault::Operand(Operator::Not)),
        },
        Ast::Compare(op, l, r) => match (eval(*l, bv, nv, dp), eval(*r, bv, nv, dp)) {
            (Err(e), _) => Err(e),
            (Ok(_), Err(e)) => Err(e),
            (Ok(x), Ok(y)) => compare_apply(op, x, y, dp),
        },
    }
}

/// An arithmetic operator on two values: numbers only.
pub open spec fn arith_apply(op: ArithOp, a: ExprResult, b: ExprResult) -> Result<
    ExprResult,
    EvalFault,
> {
    match (a, b) {
        (ExprResult::Number(x), ExprResult::Number(y)) => match arith_result(op, x, y) {
            Some(z) => Ok(ExprResult::Number(z)),
            None => Err(EvalFault::Overflow(op)),
        },
        _ => Err(EvalFault::Operand(Operator::Arith(op))),
    }
}

/// A logical operator on two values: booleans only.
pub open spec fn logic_apply(op: LogicOp, a: ExprResult, b: ExprResult) -> Result<
    ExprResult,
    EvalFault,
> {
    match (a, b) {
        (ExprResult::Boolean(x), ExprResult::Boolean(y)) => Ok(
            ExprResult::Boolean(
                match op {
                    LogicOp::And => x && y,
                    LogicOp::Or => x || y,
                },
            ),
        ),
        _ => Err(EvalFault::Operand(Operator::Logic(op))),
    }
}

/// A comparison: two numbers, both rounded to `dp` digits first, or two
/// booleans under `=` and `!=`.
pub open spec fn compare_apply(op: CmpOp, a: ExprResult, b: ExprResult, dp: nat) -> Result<
    ExprResult,
    EvalFault,
> {
    match (a, b) {
        (ExprResult::Number(x), ExprResult::Number(y)) => Ok(
            ExprResult::Boolean(
                ordering_satisfies(op, compare_values(rounded(x, dp), rounded(y, dp))),
            ),
        ),
        (ExprResult::Boolean(x), ExprResult::Boolean(y)) => if op == CmpOp::Equal {
            Ok(ExprResult::Boolean(x == y))
        } else if op == CmpOp::NotEqual {
            Ok(ExprResult::Boolean(x != y))
        } else {
            Err(EvalFault::Operand(Operator::Compare(op)))
        },
        _ => Err(EvalFault::Operand(Operator::Compare(op))),
    }
}

/// Every variable of `a` is among the declared names.
pub open spec fn declared(a: Ast, bk: Seq<Seq<char>>, nk: Seq<Seq<char>>) -> bool
    decreases a,
{
    match a {
        Ast::BooleanVariable(n) => bk.contains(n),
        Ast::NumberVariable(n) => nk.contains(n),
        Ast::Number(_) | Ast::Boolean(_) => true,
        Ast::Arith(_, l, r) | Ast::Logic(_, l, r) | Ast::Compare(_, l, r) => declared(*l, bk, nk)
            && declared(*r, bk, nk),
        Ast::Not(e) => declared(*e, bk, nk),
    }
}

/// An error of the vocabulary check names a variable of `a` that is not
/// declared.
pub open spec fn reports_unknown(
    r: Result<(), CompileError>,
    a: Ast,
    bk: Seq<Seq<char>>,
    nk: Seq<Seq<char>>,
) -> bool {
    match r {
        Err(CompileError::UnknownNumberVariable(n)) => number_names_of(a).contains(n@)
            && !nk.contains(n@),
        Err(CompileError::UnknownBooleanVariable(n)) => boolean_names_of(a).contains(n@)
            && !bk.contains(n@),
        Err(CompileError::Syntax(_)) => false,
        Ok(()) => true,
    }
}

/// `c` says why `text` does not compile: it does not parse, or it reads
/// the named variable, which is not declared.
pub open spec fn explains(
    c: CompileError,
    text: Seq<char>,
    bk: Seq<Seq<char>>,
    nk: Seq<Seq<char>>,
) -> bool {
    match c {
        CompileError::Syntax(_) => parse_spec(text) is None,
        CompileError::UnknownNumberVariable(n) => parse_spec(text) matches Some(a)
            && number_names_of(a).contains(n@) && !nk.contains(n@),
        CompileError::UnknownBooleanVariable(n) => parse_spec(text) matches Some(a)
            && boolean_names_of(a).contains(n@) && !bk.contains(n@),
    }
}

/// Why a rule expression was refused.
#[derive(Clone, Debug)]
pub enum CompileError {
    Syntax(ParseError),
    UnknownNumberVariable(String),
    UnknownBooleanVariable(String),
}

/// Parses, checks and evaluates rule expressions over a declared vocabulary.
#[derive(Clone, Debug)]
pub struct Parser {
    pub precision: u32,
    pub var_key: ExprVarKey,
}

pub(crate) fn contains_name(keys: &Vec<String>, name: &String) -> (r: bool)
    ensures
        r == keys.deep_view().contains(name@),
{
    let mut i: usize = 0;
    while i < keys.len()
        invariant
            i <= keys@.len(),
            forall|j: int| 0 <= j < i ==> keys@[j]@ != name@,
        decreases keys@.len() - i,
    {
        if keys[i] == *name {
            assert(keys.deep_view()[i as int] == name@);
            return true;
        }
        i = i + 1;
    }
    assert forall|j: int| 0 <= j < keys.deep_view().len() implies keys.deep_view()[j] != name@ by {
        assert(keys.deep_view()[j] == keys@[j]@);
    }
    false
}

impl Parser {
    pub open spec fn boolean_keys(&self) -> Seq<Seq<char>> {
        self.var_key.boolean_keys.deep_view()
    }

    pub open spec fn number_keys(&self) -> Seq<Seq<char>> {
        self.var_key.number_keys.deep_view()
    }

    pub fn new(precision: u32, var_key: ExprVarKey) -> (r: Result<Parser, CompileError>)
        ensures
            r matches Ok(p) && p.precision == precision && p.var_key.boolean_keys@
                == var_key.boolean_keys@ && p.var_key.number_keys@ == var_key.number_keys@,
    {
        Ok(Parser { precision, var_key })
    }

    /// Refuses an expression that reads a variable outside the vocabulary.
    pub fn check_vars(&self, expr: &Expr) -> (r: Result<(), CompileError>)
        ensures
            r is Ok <==> declared(expr@, self.boolean_keys(), self.number_keys()),
            reports_unknown(r, expr@, self.boolean_keys(), self.number_keys()),
            r matches Err(e) ==> !(e is Syntax),
        decreases expr,
    {
        match expr {
            Expr::NumberVariable(name) => {
                if !contains_name(&self.var_key.number_keys, name) {
                    assert(number_names_of(expr@) =~= seq![name@]);
                    assert(number_names_of(expr@)[0] == name@);
                    return Err(CompileError::UnknownNumberVariable(name.clone()));
                }
                Ok(())
            },
            Expr::BooleanVariable(name) => {
                if !contains_name(&self.var_key.boolean_keys, name) {
                    assert(boolean_names_of(expr@) =~= seq![name@]);
                    assert(boolean_names_of(expr@)[0] == name@);
                    return Err(CompileError::UnknownBooleanVariable(name.clone()));
                }
                Ok(())
            },
            Expr::Number(_) | Expr::Boolean(_) => Ok(()),
            Expr::Not(inner) => self.check_vars(inner),
            Expr::Plus(left, right)
            | Expr::Minus(left, right)
            | Expr::Times(left, right)
            | Expr::Divide(left, right)
            | Expr::And(left, right)
            | Expr::Or(left, right)
            | Expr::Equal(left, right)
            | Expr::NotEqual(left, right)
            | Expr::LessThan(left, right)
            | Expr::GreaterThan(left, right)
            | Expr::LessThanEqual(left, right)
            | Expr::GreaterThanEqual(left, right) => {
                proof {
                    lemma_names_of_children(expr@, left@, right@);
                }
                let a = self.check_vars(left);
                if a.is_err() {
                    return a;
                }
                self.check_vars(right)
            },
        }
    }

    /// Parses `input` and checks its variables against the vocabulary.
    pub fn parse(&self, input: &str) -> (r: Result<Expr, CompileError>)
        ensures
            r is Ok <==> (parse_spec(input@) matches Some(a) && declared(
                a,
                self.boolean_keys(),
                self.number_keys(),
            )),
            r matches Ok(e) ==> parse_spec(input@) == Some(e@),
            r matches Err(c) ==> explains(c, input@, self.boolean_keys(), self.number_keys()),
    {
        match parse(input) {
            Ok(e) => match self.check_vars(&e) {
                Ok(()) => Ok(e),
                Err(err) => Err(err),
            },
            Err(err) => Err(CompileError::Syntax(err)),
        }
    }

    /// Evaluates `expr` under `expr_var`.
    pub fn exec(&self, expr: &Expr, expr_var: &ExprVar) -> (r: Result<ExprResult, EvalError>)
        ensures
            res_agrees(
                r,
                eval(expr@, expr_var.booleans(), expr_var.numbers(), self.precision as nat),
            ),
            r matches Ok(ExprResult::Number(x)) ==> x.wf(),
        decreases expr,
    {
        match expr {
            Expr::Number(n) => {
                if n.is_valid() {
                    Ok(ExprResult::Number(*n))
                } else {
                    Err(EvalError::InvalidNumber)
                }
            },
            Expr::Boolean(b) => Ok(ExprResult::Boolean(*b)),
            Expr::NumberVariable(name) => match find(&expr_var.number_vars, name) {
                Some(v) => {
                    if v.is_valid() {
                        Ok(ExprResult::Number(v))
                    } else {
                        Err(EvalError::InvalidNumber)
                    }
                },
                None => Err(EvalError::MissingNumber(name.clone())),
            },
            Expr::BooleanVariable(name) => match find(&expr_var.boolean_vars, name) {
                Some(v) => Ok(ExprResult::Boolean(v)),
                None => Err(EvalError::MissingBoolean(name.clone())),
            },
            Expr::Not(e) => match self.exec(e, expr_var) {
                Err(f) => Err(f),
                Ok(ExprResult::Boolean(x)) => Ok(ExprResult::Boolean(!x)),
                Ok(_) => Err(EvalError::Operand(Operator::Not)),
            },
            Expr::Plus(l, r)
            | Expr::Minus(l, r)
            | Expr::Times(l, r)
            | Expr::Divide(l, r)
            | Expr::And(l, r)
            | Expr::Or(l, r)
            | Expr::Equal(l, r)
            | Expr::NotEqual(l, r)
            | Expr::LessThan(l, r)
            | Expr::GreaterThan(l, r)
            | Expr::LessThanEqual(l, r)
            | Expr::GreaterThanEqual(l, r) => {
                let a = match self.exec(l, expr_var) {
                    Ok(v) => v,
                    Err(e) => {
                        return Err(e);
                    },
                };
                let b = match self.exec(r, expr_var) {
                    Ok(v) => v,
                    Err(e) => {
                        return Err(e);
                    },
                };
                match expr {
                    Expr::Plus(_, _) => apply_arith(ArithOp::Plus, a, b),
                    Expr::Minus(_, _) => apply_arith(ArithOp::Minus, a, b),
                    Expr::Times(_, _) => apply_arith(ArithOp::Times, a, b),
                    Expr::Divide(_, _) => apply_arith(ArithOp::Divide, a, b),
                    Expr::And(_, _) => apply_logic(LogicOp::And, a, b),
                    Expr::Or(_, _) => apply_logic(LogicOp::Or, a, b),
                    Expr::Equal(_, _) => apply_compare(CmpOp::Equal, a, b, self.precision),
                    Expr::NotEqual(_, _) => apply_compare(CmpOp::NotEqual, a, b, self.precision),
                    Expr::LessThan(_, _) => apply_compare(CmpOp::LessThan, a, b, self.precision),
                    Expr::GreaterThan(_, _) => apply_compare(
                        CmpOp::GreaterThan,
                        a,
                        b,
                        self.precision,
                    ),
                    Expr::LessThanEqual(_, _) => apply_compare(
                        CmpOp::LessThanEqual,
                        a,
                        b,
                        self.precision,
                    ),
                    _ => apply_compare(CmpOp::GreaterThanEqual, a, b, self.precision),
                }
            },
        }
    }
}

fn apply_arith(op: ArithOp, a: ExprResult, b: ExprResult) -> (res: Result<ExprResult, EvalError>)
    requires
        a matches ExprResult::Number(x) ==> x.wf(),
        b matches ExprResult::Number(y) ==> y.wf(),
    ensures
        res_agrees(res, arith_apply(op, a, b)),
        res matches Ok(ExprResult::Number(z)) ==> z.wf(),
{
    match (a, b) {
        (ExprResult::Number(x), ExprResult::Number(y)) => {
            let z = match op {
                ArithOp::Plus => decimal_add(x, y),
                ArithOp::Minus => decimal_sub(x, y),
                ArithOp::Times => decimal_mul(x, y),
                ArithOp::Divide => decimal_div(x, y),
            };
            match z {
                Some(z) => Ok(ExprResult::Number(z)),
                None => Err(EvalError::Overflow(op)),
            }
        },
        _ => Err(EvalError::Operand(Operator::Arith(op))),
    }
}

fn apply_logic(op: LogicOp, a: ExprResult, b: ExprResult) -> (res: Result<ExprResult, EvalError>)
    ensures
        res_agrees(res, logic_apply(op, a, b)),
        res is Ok ==> res matches Ok(ExprResult::Boolean(_)),
{
    match (a, b) {
        (ExprResult::Boolean(x), ExprResult::Boolean(y)) => {
            let v = match op {
                LogicOp::And => x && y,
                LogicOp::Or => x || y,
            };
            Ok(ExprResult::Boolean(v))
        },
        _ => Err(EvalError::Operand(Operator::Logic(op))),
    }
}

fn apply_compare(op: CmpOp, a: ExprResult, b: ExprResult, dp: u32) -> (res: Result<
    ExprResult,
    EvalError,
>)
    requires
        a matches ExprResult::Number(x) ==> x.wf(),
        b matches ExprResult::Number(y) ==> y.wf(),
    ensures
        res_agrees(res, compare_apply(op, a, b, dp as nat)),
        res is Ok ==> res matches Ok(ExprResult::Boolean(_)),
{
    match (a, b) {
        (ExprResult::Number(x), ExprResult::Number(y)) => {
            let rx = x.round_dp(dp);
            let ry = y.round_dp(dp);
            let o = rx.compare(&ry);
            let holds = match op {
                CmpOp::Equal => matches!(o, core::cmp::Ordering::Equal),
                CmpOp::NotEqual => !matches!(o, core::cmp::Ordering::Equal),
                CmpOp::LessThan => matches!(o, core::cmp::Ordering::Less),
                CmpOp::GreaterThan => matches!(o, core::cmp::Ordering::Greater),
                CmpOp::LessThanEqual => !matches!(o, core::cmp::Ordering::Greater),
                CmpOp::GreaterThanEqual => !matches!(o, core::cmp::Ordering::Less),
            };
            Ok(ExprResult::Boolean(holds))
        },
        (ExprResult::Boolean(x), ExprResult::Boolean(y)) => {
            if op == CmpOp::Equal {
                Ok(ExprResult::Boolean(x == y))
            } else if op == CmpOp::NotEqual {
                Ok(ExprResult::Boolean(x != y))
            } else {
                Err(EvalError::Operand(Operator::Compare(op)))
            }
        },
        _ => Err(EvalError::Operand(Operator::Compare(op))),
    }
}

pub open spec fn res_agrees(
    r: Result<ExprResult, EvalError>,
    g: Result<ExprResult, EvalFault>,
) -> bool {
    match r {
        Ok(v) => g == Ok::<ExprResult, EvalFault>(v),
        Err(e) => g == Err::<ExprResult, EvalFault>(e@),
    }
}

pub open spec fn number_names_of(a: Ast) -> Seq<Seq<char>> {
    crate::expr::number_names(a)
}

pub open spec fn boolean_names_of(a: Ast) -> Seq<Seq<char>> {
    crate::expr::boolean_names(a)
}

proof fn lemma_names_of_children(a: Ast, l: Ast, r: Ast)
    requires
        number_names_of(a) == number_names_of(l) + number_names_of(r),
        boolean_names_of(a) == boolean_names_of(l) + boolean_names_of(r),
    ensures
        forall|n: Seq<char>| #[trigger]
            number_names_of(l).contains(n) ==> number_names_of(a).contains(n),
        forall|n: Seq<char>| #[trigger]
            boolean_names_of(l).contains(n) ==> boolean_names_of(a).contains(n),
        forall|n: Seq<char>| #[trigger]
            number_names_of(r).contains(n) ==> number_names_of(a).contains(n),
        forall|n: Seq<char>| #[trigger]
            boolean_names_of(r).contains(n) ==> boolean_names_of(a).contains(n),
{
    assert forall|n: Seq<char>| #[trigger]
        number_names_of(l).contains(n) implies number_names_of(a).contains(n) by {
        let i = choose|i: int| 0 <= i < number_names_of(l).len() && number_names_of(l)[i] == n;
        assert(number_names_of(a)[i] == n);
    }
    assert forall|n: Seq<char>| #[trigger]
        boolean_names_of(l).contains(n) implies boolean_names_of(a).contains(n) by {
        let i = choose|i: int| 0 <= i < boolean_names_of(l).len() && boolean_names_of(l)[i] == n;
        assert(boolean_names_of(a)[i] == n);
    }
    assert forall|n: Seq<char>| #[trigger]
        number_names_of(r).contains(n) implies number_names_of(a).contains(n) by {
        let i = choose|i: int| 0 <= i < number_names_of(r).len() && number_names_of(r)[i] == n;
        assert(number_names_of(a)[number_names_of(l).len() + i] == n);
    }
    assert forall|n: Seq<char>| #[trigger]
        boolean_names_of(r).contains(n) implies boolean_names_of(a).contains(n) by {
        let i = choose|i: int| 0 <= i < boolean_names_of(r).len() && boolean_names_of(r)[i] == n;
        assert(boolean_names_of(a)[boolean_names_of(l).len() + i] == n);
    }
}

/// Every name in `keys` has a binding in `entries`.
pub open spec fn covers<V>(entries: Seq<(Seq<char>, V)>, keys: Seq<Seq<char>>) -> bool {
    forall|i: int| 0 <= i < keys.len() ==> (#[trigger] lookup(entries, keys[i])) is Some
}

/// An expression that passed the vocabulary check never fails for want of a
/// binding, when the bindings cover the vocabulary.
pub proof fn lemma_checked_expression_finds_its_variables(
    a: Ast,
    bk: Seq<Seq<char>>,
    nk: Seq<Seq<char>>,
    bv: Seq<(Seq<char>, bool)>,
    nv: Seq<(Seq<char>, Dec)>,
    dp: nat,
)
    requires
        declared(a, bk, nk),
        covers(bv, bk),
        covers(nv, nk),
    ensures
        !(eval(a, bv, nv, dp) matches Err(EvalFault::MissingNumber(_))),
        !(eval(a, bv, nv, dp) matches Err(EvalFault::MissingBoolean(_))),
    decreases a,
{
    match a {
        Ast::BooleanVariable(n) => {
            let i = choose|i: int| 0 <= i < bk.len() && bk[i] == n;
            assert(lookup(bv, bk[i]) is Some);
        },
        Ast::NumberVariable(n) => {
            let i = choose|i: int| 0 <= i < nk.len() && nk[i] == n;
            assert(lookup(nv, nk[i]) is Some);
        },
        Ast::Number(_) | Ast::Boolean(_) => {},
        Ast::Arith(_, l, r) | Ast::Logic(_, l, r) | Ast::Compare(_, l, r) => {
            lemma_checked_expression_finds_its_variables(*l, bk, nk, bv, nv, dp);
            lemma_checked_expression_finds_its_variables(*r, bk, nk, bv, nv, dp);
        },
        Ast::Not(e) => {
            lemma_checked_expression_finds_its_variables(*e, bk, nk, bv, nv, dp);
        },
    }
}

} // verus!
