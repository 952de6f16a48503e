use vstd::prelude::*;

use crate::decimal::Dec;

verus! {

/// An expression tree; each node owns its children.
#[derive(Debug, PartialEq)]
pub enum Expr {
    Number(Dec),
    Boolean(bool),
    NumberVariable(String),
    BooleanVariable(String),
    Plus(Box<Expr>, Box<Expr>),
    Minus(Box<Expr>, Box<Expr>),
    Times(Box<Expr>, Box<Expr>),
    Divide(Box<Expr>, Box<Expr>),
    And(Box<Expr>, Box<Expr>),
    Or(Box<Expr>, Box<Expr>),
    Not(Box<Expr>),
    Equal(Box<Expr>, Box<Expr>),
    NotEqual(Box<Expr>, Box<Expr>),
    LessThan(Box<Expr>, Box<Expr>),
    GreaterThan(Box<Expr>, Box<Expr>),
    LessThanEqual(Box<Expr>, Box<Expr>),
    GreaterThanEqual(Box<Expr>, Box<Expr>),
}

#[derive(Clone, Copy, Debug, PartialEq, Eq, Structural)]
pub enum ArithOp {
    Plus,
    Minus,
    Times,
    Divide,
}

#[derive(Clone, Copy, Debug, PartialEq, Eq, Structural)]
pub enum LogicOp {
    And,
    Or,
}

#[derive(Clone, Copy, Debug, PartialEq, Eq, Structural)]
pub enum CmpOp {
    Equal,
    NotEqual,
    LessThan,
    GreaterThan,
    LessThanEqual,
    GreaterThanEqual,
}

/// The mathematical model of an expression: names are character sequences
/// and binary nodes are grouped by operator family.
pub enum Ast {
    Number(Dec),
    Boolean(bool),
    NumberVariable(Seq<char>),
    BooleanVariable(Seq<char>),
    Arith(ArithOp, Box<Ast>, Box<Ast>),
    Logic(LogicOp, Box<Ast>, Box<Ast>),
    Not(Box<Ast>),
    Compare(CmpOp, Box<Ast>, Box<Ast>),
}

impl Expr {
    pub open spec fn view(&self) -> Ast
        decreases self,
    {
        match self {
            Expr::Number(n) => Ast::Number(*n),
            Expr::Boolean(b) => Ast::Boolean(*b),
            Expr::NumberVariable(s) => Ast::NumberVariable(s@),
            Expr::BooleanVariable(s) => Ast::BooleanVariable(s@),
            Expr::Plus(l, r) => Ast::Arith(ArithOp::Plus, Box::new(l.view()), Box::new(r.view())),
            Expr::Minus(l, r) => Ast::Arith(ArithOp::Minus, Box::new(l.view()), Box::new(r.view())),
            Expr::Times(l, r) => Ast::Arith(ArithOp::Times, Box::new(l.view()), Box::new(r.view())),
            Expr::Divide(l, r) => Ast::Arith(
                ArithOp::Divide,
                Box::new(l.view()),
                Box::new(r.view()),
            ),
            Expr::And(l, r) => Ast::Logic(LogicOp::And, Box::new(l.view()), Box::new(r.view())),
            Expr::Or(l, r) => Ast::Logic(LogicOp::Or, Box::new(l.view()), Box::new(r.view())),
            Expr::Not(e) => Ast::Not(Box::new(e.view())),
            Expr::Equal(l, r) => Ast::Compare(CmpOp::Equal, Box::new(l.view()), Box::new(r.view())),
            Expr::NotEqual(l, r) => Ast::Compare(
                CmpOp::NotEqual,
                Box::new(l.view()),
                Box::new(r.view()),
            ),
            Expr::LessThan(l, r) => Ast::Compare(
                CmpOp::LessThan,
                Box::new(l.view()),
                Box::new(r.view()),
            ),
            Expr::GreaterThan(l, r) => Ast::Compare(
                CmpOp::GreaterThan,
                Box::new(l.view()),
                Box::new(r.view()),
            ),
            Expr::LessThanEqual(l, r) => Ast::Compare(
                CmpOp::LessThanEqual,
                Box::new(l.view()),
                Box::new(r.view()),
            ),
            Expr::GreaterThanEqual(l, r) => Ast::Compare(
                CmpOp::GreaterThanEqual,
                Box::new(l.view()),
                Box::new(r.view()),
            ),
        }
    }

    /// Every numeric literal in the tree fits the decimal range.
    pub open spec fn wf(&self) -> bool {
        numbers_wf(self@)
    }

    /// The names of the variables that the expression reads.
    pub fn get_var_keys(&self) -> (r: ExprVarKey)
        ensures
            r.boolean_keys.deep_view() == boolean_names(self@),
            r.number_keys.deep_view() == number_names(self@),
    {
        loop_var_keys(self)
    }
}

pub open spec fn numbers_wf(a: Ast) -> bool
    decreases a,
{
    match a {
        Ast::Number(n) => n.wf(),
        Ast::Boolean(_) | Ast::NumberVariable(_) | Ast::BooleanVariable(_) => true,
        Ast::Arith(_, l, r) | Ast::Logic(_, l, r) | Ast::Compare(_, l, r) => numbers_wf(*l)
            && numbers_wf(*r),
        Ast::Not(e) => numbers_wf(*e),
    }
}

/// Boolean variable names read by `a`, left to right.
pub open spec fn boolean_names(a: Ast) -> Seq<Seq<char>>
    decreases a,
{
    match a {
        Ast::BooleanVariable(s) => seq![s],
        Ast::Number(_) | Ast::Boolean(_) | Ast::NumberVariable(_) => Seq::empty(),
        Ast::Arith(_, l, r) | Ast::Logic(_, l, r) | Ast::Compare(_, l, r) => boolean_names(*l)
            + boolean_names(*r),
        Ast::Not(e) => boolean_names(*e),
    }
}

/// Number variable names read by `a`, left to right.
pub open spec fn number_names(a: Ast) -> Seq<Seq<char>>
    decreases a,
{
    match a {
        Ast::NumberVariable(s) => seq![s],
        Ast::Number(_) | Ast::Boolean(_) | Ast::BooleanVariable(_) => Seq::empty(),
        Ast::Arith(_, l, r) | Ast::Logic(_, l, r) | Ast::Compare(_, l, r) => number_names(*l)
            + number_names(*r),
        Ast::Not(e) => number_names(*e),
    }
}

/// A copy of `e`, node by node.
pub fn copy_expr(e: &Expr) -> (r: Expr)
    ensures
        r@ == e@,
    decreases e,
{
    match e {
        Expr::Number(n) => Expr::Number(*n),
        Expr::Boolean(b) => Expr::Boolean(*b),
        Expr::NumberVariable(s) => Expr::NumberVariable(s.clone()),
        Expr::BooleanVariable(s) => Expr::BooleanVariable(s.clone()),
        Expr::Plus(l, r) => Expr::Plus(Box::new(copy_expr(l)), Box::new(copy_expr(r))),
        Expr::Minus(l, r) => Expr::Minus(Box::new(copy_expr(l)), Box::new(copy_expr(r))),
        Expr::Times(l, r) => Expr::Times(Box::new(copy_expr(l)), Box::new(copy_expr(r))),
        Expr::Divide(l, r) => Expr::Divide(Box::new(copy_expr(l)), Box::new(copy_expr(r))),
        Expr::And(l, r) => Expr::And(Box::new(copy_expr(l)), Box::new(copy_expr(r))),
        Expr::Or(l, r) => Expr::Or(Box::new(copy_expr(l)), Box::new(copy_expr(r))),
        Expr::Not(x) => Expr::Not(Box::new(copy_expr(x))),
        Expr::Equal(l, r) => Expr::Equal(Box::new(copy_expr(l)), Box::new(copy_expr(r))),
        Expr::NotEqual(l, r) => Expr::NotEqual(Box::new(copy_expr(l)), Box::new(copy_expr(r))),
        Expr::LessThan(l, r) => Expr::LessThan(Box::new(copy_expr(l)), Box::new(copy_expr(r))),
        Expr::GreaterThan(l, r) => Expr::GreaterThan(
            Box::new(copy_expr(l)),
            Box::new(copy_expr(r)),
        ),
        Expr::LessThanEqual(l, r) => Expr::LessThanEqual(
            Box::new(copy_expr(l)),
            Box::new(copy_expr(r)),
        ),
        Expr::GreaterThanEqual(l, r) => Expr::GreaterThanEqual(
            Box::new(copy_expr(l)),
            Box::new(copy_expr(r)),
        ),
    }
}

impl Clone for Expr {
    fn clone(&self) -> Self {
        copy_expr(self)
    }
}

/// Names of boolean and of number variables.
#[derive(Debug, Clone)]
pub struct ExprVarKey {
    pub boolean_keys: Vec<String>,
    pub number_keys: Vec<String>,
}

impl ExprVarKey {
    pub fn new(boolean_keys: Vec<String>, number_keys: Vec<String>) -> (r: ExprVarKey)
        ensures
            r.boolean_keys@ == boolean_keys@,
            r.number_keys@ == number_keys@,
    {
        ExprVarKey { boolean_keys, number_keys }
    }

    pub fn default() -> (r: ExprVarKey)
        ensures
            r.boolean_keys@.len() == 0,
            r.number_keys@.len() == 0,
    {
        ExprVarKey { boolean_keys: Vec::new(), number_keys: Vec::new() }
    }
}

fn append_keys(dst: &mut Vec<String>, mut src: Vec<String>)
    ensures
        final(dst).deep_view() == old(dst).deep_view() + src.deep_view(),
{
    let ghost d0 = dst.deep_view();
    let ghost s0 = src.deep_view();
    dst.append(&mut src);
    assert(dst.deep_view() =~= d0 + s0);
}

/// Collects the names of every variable leaf of `expr`, left to right.
pub fn loop_var_keys(expr: &Expr) -> (r: ExprVarKey)
    ensures
        r.boolean_keys.deep_view() == boolean_names(expr@),
        r.number_keys.deep_view() == number_names(expr@),
    decreases expr,
{
    let mut boolean_keys: Vec<String> = Vec::new();
    let mut number_keys: Vec<String> = Vec::new();
    match expr {
        Expr::NumberVariable(key) => {
            number_keys.push(key.clone());
            assert(number_keys.deep_view() =~= seq![key@]);
        },
        Expr::BooleanVariable(key) => {
            boolean_keys.push(key.clone());
            assert(boolean_keys.deep_view() =~= seq![key@]);
        },
        Expr::Number(_) | Expr::Boolean(_) => {
            assert(boolean_keys.deep_view() =~= Seq::empty());
            assert(number_keys.deep_view() =~= Seq::empty());
        },
        Expr::Not(inner) => {
            let k = loop_var_keys(inner);
            boolean_keys = k.boolean_keys;
            number_keys = k.number_keys;
        },
        Expr::Plus(left, right)
        | Expr::Minus(left, right)
        | Expr::Times(left, right)
        | Expr::Divide(left, right)
        | Expr::And(left, right)
        | Expr::Or(left, right)
        | Expr::Equal(left, right)
        | Expr::NotEqual(left, right)
        | Expr::LessThan(left, right)
        | Expr::GreaterThan(left, right)
        | Expr::LessThanEqual(left, right)
        | Expr::GreaterThanEqual(left, right) => {
            let l = loop_var_keys(left);
            let r = loop_var_keys(right);
            boolean_keys = l.boolean_keys;
            number_keys = l.number_keys;
            append_keys(&mut boolean_keys, r.boolean_keys);
            append_keys(&mut number_keys, r.number_keys);
        },
    }
    ExprVarKey { boolean_keys, number_keys }
}

} // verus!
