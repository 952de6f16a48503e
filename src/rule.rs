use vstd::prelude::*;

use crate::decimal::Dec;
use crate::eval::{
    covers, declared, eval, explains, lemma_checked_expression_finds_its_variables, CompileError,
    EvalFault, ExprResult, Parser,
};
use crate::expr::{boolean_names, number_names, Expr, ExprVarKey};
use crate::grammar::parse_spec;
use crate::typing::{lemma_parsed_is_condition, lemma_typed_evaluates, numbers_in_range};

verus! {

/// What a rule does to an item's held ("locked") and flagged ("marked")
/// states when its expression holds.
#[derive(Clone, Copy, Debug, PartialEq, Eq, Structural)]
pub enum RuleAction {
    /// Toggle held; releasing also clears the flag.
    ClickLock,
    /// Toggle flagged; flagging also sets held.
    ClickMark,
    /// Set held.
    Lock,
    /// Set held, clear flagged.
    OnlyLock,
    /// Set held and flagged.
    LockAndMark,
    /// Clear held and flagged.
    UnLockAndMark,
}

/// A rule as written by its author.
#[derive(Clone, Debug)]
pub struct Rule {
    pub description: String,
    pub expression: String,
    pub action: RuleAction,
}

impl Rule {
    /// A copy with equal text.
    pub fn duplicate(&self) -> (r: Rule)
        ensures
            r.description@ == self.description@,
            r.expression@ == self.expression@,
            r.action == self.action,
    {
        Rule {
            description: self.description.clone(),
            expression: self.expression.clone(),
            action: self.action,
        }
    }
}

/// A rule whose expression was parsed and checked against the vocabulary.
#[derive(Clone, Debug)]
pub struct RuleExpr {
    pub rule: Rule,
    pub expr: Expr,
    pub expr_var_key: ExprVarKey,
}

/// A rule that could not be compiled, with its text and the cause.
#[derive(Clone, Debug)]
pub struct RuleError {
    pub description: String,
    pub expression: String,
    pub cause: CompileError,
}

/// `text` parses, and every variable it reads is declared to `p`.
pub open spec fn compiles(p: Parser, text: Seq<char>) -> bool {
    parse_spec(text) matches Some(a) && declared(a, p.boolean_keys(), p.number_keys())
}

/// `e` is the refusal of `rule`: its text, and the cause.
pub open spec fn reports(e: RuleError, rule: Rule, p: Parser) -> bool {
    &&& e.description@ == rule.description@
    &&& e.expression@ == rule.expression@
    &&& explains(e.cause, rule.expression@, p.boolean_keys(), p.number_keys())
}

/// `re` is the compiled form of `rule` under `p`.
pub open spec fn compiled_from(re: RuleExpr, rule: Rule, p: Parser) -> bool {
    &&& re.rule.description@ == rule.description@
    &&& re.rule.expression@ == rule.expression@
    &&& re.rule.action == rule.action
    &&& parse_spec(rule.expression@) == Some(re.expr@)
    &&& declared(re.expr@, p.boolean_keys(), p.number_keys())
    &&& re.expr_var_key.boolean_keys.deep_view() == boolean_names(re.expr@)
    &&& re.expr_var_key.number_keys.deep_view() == number_names(re.expr@)
}

impl RuleExpr {
    /// Compiles one rule.
    pub fn from_rule(rule: Rule, parser: &Parser) -> (r: Result<RuleExpr, RuleError>)
        ensures
            r is Ok <==> compiles(*parser, rule.expression@),
            r matches Ok(re) ==> compiled_from(re, rule, *parser),
            r matches Err(e) ==> reports(e, rule, *parser),
    {
        match parser.parse(rule.expression.as_str()) {
            Ok(expr) => {
                let expr_var_key = expr.get_var_keys();
                Ok(RuleExpr { rule, expr, expr_var_key })
            },
            Err(cause) => Err(RuleError { description: rule.description, expression: rule.expression, cause }),
        }
    }

    /// Compiles every rule, in order; the first rule that fails stops the
    /// whole load.
    pub fn from_rules(rules: &Vec<Rule>, parser: &Parser) -> (r: Result<Vec<RuleExpr>, RuleError>)
        ensures
            r is Ok <==> forall|i: int| 0 <= i < rules@.len() ==> compiles(*parser, #[trigger] rules@[i].expression@),
            r matches Ok(v) ==> v@.len() == rules@.len() && forall|i: int|
                0 <= i < rules@.len() ==> compiled_from(#[trigger] v@[i], rules@[i], *parser),
            r matches Err(e) ==> exists|i: int|
                0 <= i < rules@.len() && !compiles(*parser, #[trigger] rules@[i].expression@)
                    && reports(e, rules@[i], *parser) && forall|j: int|
                    0 <= j < i ==> compiles(*parser, #[trigger] rules@[j].expression@),
    {
        let mut out: Vec<RuleExpr> = Vec::new();
        let mut i: usize = 0;
        while i < rules.len()
            invariant
                i <= rules@.len(),
                out@.len() == i,
                forall|j: int| 0 <= j < i ==> compiled_from(#[trigger] out@[j], rules@[j], *parser),
                forall|j: int| 0 <= j < i ==> compiles(*parser, #[trigger] rules@[j].expression@),
            decreases rules@.len() - i,
        {
            match RuleExpr::from_rule(rules[i].duplicate(), parser) {
                Ok(re) => {
                    out.push(re);
                },
                Err(e) => {
                    assert(!compiles(*parser, rules@[i as int].expression@)
                        && reports(e, rules@[i as int], *parser));
                    return Err(e);
                },
            }
            i = i + 1;
        }
        Ok(out)
    }
}

/// A compiled rule never fails for want of a binding when the bindings
/// cover the vocabulary it was checked against: undeclared names are
/// refused when rules are compiled, not when they run.
pub proof fn lemma_compiled_rule_finds_its_variables(
    re: RuleExpr,
    rule: Rule,
    p: Parser,
    bv: Seq<(Seq<char>, bool)>,
    nv: Seq<(Seq<char>, Dec)>,
)
    requires
        compiled_from(re, rule, p),
        covers(bv, p.boolean_keys()),
        covers(nv, p.number_keys()),
    ensures
        !(eval(re.expr@, bv, nv, p.precision as nat) matches Err(EvalFault::MissingNumber(_))),
        !(eval(re.expr@, bv, nv, p.precision as nat) matches Err(EvalFault::MissingBoolean(_))),
{
    lemma_checked_expression_finds_its_variables(
        re.expr@,
        p.boolean_keys(),
        p.number_keys(),
        bv,
        nv,
        p.precision as nat,
    );
}

/// A compiled rule, evaluated on bindings for its whole vocabulary with
/// numbers in range, gives a truth value unless its arithmetic overflows:
/// compilation refused unknown names, and the grammar admits no
/// ill-typed expression.
pub proof fn lemma_compiled_rule_evaluates(
    re: RuleExpr,
    rule: Rule,
    p: Parser,
    bv: Seq<(Seq<char>, bool)>,
    nv: Seq<(Seq<char>, Dec)>,
)
    requires
        compiled_from(re, rule, p),
        covers(bv, p.boolean_keys()),
        covers(nv, p.number_keys()),
        numbers_in_range(nv),
    ensures
        eval(re.expr@, bv, nv, p.precision as nat) matches Ok(ExprResult::Boolean(_)) || eval(
            re.expr@,
            bv,
            nv,
            p.precision as nat,
        ) matches Err(EvalFault::Overflow(_)),
{
    lemma_parsed_is_condition(rule.expression@);
    lemma_typed_evaluates(
        re.expr@,
        p.boolean_keys(),
        p.number_keys(),
        bv,
        nv,
        p.precision as nat,
    );
}

/// An item's (held, flagged) pair is legal unless flagged without held.
pub open spec fn legal(s: (bool, bool)) -> bool {
    !(s.1 && !s.0)
}

/// The state after `a` is applied to `s`.
pub open spec fn apply_action(s: (bool, bool), a: RuleAction) -> (bool, bool) {
    match a {
        RuleAction::ClickLock => if s.0 {
            (false, false)
        } else {
            (true, s.1)
        },
        RuleAction::ClickMark => if s.1 {
            (s.0, false)
        } else {
            (true, true)
        },
        RuleAction::Lock => (true, s.1),
        RuleAction::OnlyLock => (true, false),
        RuleAction::LockAndMark => (true, true),
        RuleAction::UnLockAndMark => (false, false),
    }
}

/// The state after each action of `actions` in turn.
pub open spec fn apply_actions(s: (bool, bool), actions: Seq<RuleAction>) -> (bool, bool)
    decreases actions.len(),
{
    if actions.len() == 0 {
        s
    } else {
        apply_action(apply_actions(s, actions.drop_last()), actions.last())
    }
}

/// Applies `action` to a (held, flagged) pair.
pub fn apply_rule_action(locked: bool, marked: bool, action: RuleAction) -> (r: (bool, bool))
    ensures
        r == apply_action((locked, marked), action),
{
    match action {
        RuleAction::ClickLock => {
            let l = !locked;
            let m = if marked && !l {
                false
            } else {
                marked
            };
            (l, m)
        },
        RuleAction::ClickMark => {
            let m = !marked;
            let l = if !locked && m {
                true
            } else {
                locked
            };
            (l, m)
        },
        RuleAction::Lock => (true, marked),
        RuleAction::OnlyLock => (true, false),
        RuleAction::LockAndMark => (true, true),
        RuleAction::UnLockAndMark => (false, false),
    }
}

/// No sequence of rule actions, from a legal state, ends flagged but not
/// held.
pub proof fn lemma_actions_keep_legal(s: (bool, bool), actions: Seq<RuleAction>)
    requires
        legal(s),
    ensures
        legal(apply_actions(s, actions)),
    decreases actions.len(),
{
    if actions.len() > 0 {
        lemma_actions_keep_legal(s, actions.drop_last());
    }
}

/// Every rule action leads to a legal state, whatever the state before.
pub proof fn lemma_action_result_legal(s: (bool, bool), a: RuleAction)
    ensures
        legal(apply_action(s, a)),
{
}

/// Which class of real action was emitted for an item.
#[derive(Clone, Copy, Debug, PartialEq, Eq, Structural)]
pub enum ActuatorResult {
    UnlockAndUnmark,
    OnlyLock,
    LockAndMark,
}

/// The real clicks to emit: on the hold control, on the flag control.
#[derive(Clone, Copy, Debug, PartialEq, Eq, Structural)]
pub struct Clicks {
    pub lock: bool,
    pub mark: bool,
}

/// The outcome and clicks that take the screen from `orig` to `target`;
/// `None` for the illegal target.
pub open spec fn decide_spec(orig: (bool, bool), target: (bool, bool)) -> Option<(ActuatorResult, Clicks)> {
    if target.0 && target.1 {
        Some((ActuatorResult::LockAndMark, Clicks { lock: false, mark: !orig.1 }))
    } else if target.0 {
        if orig.0 {
            Some((ActuatorResult::OnlyLock, Clicks { lock: false, mark: orig.1 }))
        } else {
            Some((ActuatorResult::OnlyLock, Clicks { lock: true, mark: false }))
        }
    } else if !target.1 {
        Some((ActuatorResult::UnlockAndUnmark, Clicks { lock: orig.0, mark: false }))
    } else {
        None
    }
}

/// What the real controls do: a click on the hold control acts as
/// `ClickLock`, one on the flag control as `ClickMark`.
pub open spec fn press(s: (bool, bool), c: Clicks) -> (bool, bool) {
    let a = if c.lock {
        apply_action(s, RuleAction::ClickLock)
    } else {
        s
    };
    if c.mark {
        apply_action(a, RuleAction::ClickMark)
    } else {
        a
    }
}

pub open spec fn click_count(c: Clicks) -> nat {
    (if c.lock {
        1nat
    } else {
        0nat
    }) + (if c.mark {
        1nat
    } else {
        0nat
    })
}

/// The state reached after the rules is illegal.
#[derive(Clone, Copy, Debug, PartialEq, Eq, Structural)]
pub struct InvalidState;

/// Chooses the clicks that take the real item from `orig` to `target`.
pub fn decide(orig: (bool, bool), target: (bool, bool)) -> (r: Result<(ActuatorResult, Clicks), InvalidState>)
    ensures
        r is Err <==> decide_spec(orig, target) is None,
        r matches Ok(x) ==> decide_spec(orig, target) == Some(x),
{
    let (locked, marked) = target;
    if locked {
        if marked {
            Ok((ActuatorResult::LockAndMark, Clicks { lock: false, mark: !orig.1 }))
        } else if orig.0 {
            Ok((ActuatorResult::OnlyLock, Clicks { lock: false, mark: orig.1 }))
        } else {
            Ok((ActuatorResult::OnlyLock, Clicks { lock: true, mark: false }))
        }
    } else if marked {
        Err(InvalidState)
    } else {
        Ok((ActuatorResult::UnlockAndUnmark, Clicks { lock: orig.0, mark: false }))
    }
}

/// Between legal states the chosen clicks reach the target with at most one
/// click, and with none exactly when nothing changes.
pub proof fn lemma_clicks_reach_target(orig: (bool, bool), target: (bool, bool))
    requires
        legal(orig),
        legal(target),
    ensures
        decide_spec(orig, target) matches Some((_, c)) && press(orig, c) == target && click_count(c)
            <= 1 && (click_count(c) == 0 <==> orig == target),
{
}

} // verus!
