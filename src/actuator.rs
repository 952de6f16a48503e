use vstd::prelude::*;

use crate::decimal::Dec;
use crate::artifact::{boolean_bindings, number_bindings, push_flags, push_zeros, Artifact};
use crate::coordinate::CoordinateData;
use crate::eval::{
    contains_name, entries_view, eval, restrict, EvalError, EvalFault, ExprResult, ExprVar, Parser,
};
use crate::expr::ExprVarKey;
use crate::geometry::{in_i32, point_offset, Point};
use crate::metadata::ArtifactInfo;
use crate::rule::{
    apply_action, apply_rule_action, decide, decide_spec, lemma_action_result_legal, legal,
    ActuatorResult, Clicks, RuleExpr,
};

verus! {

/// Applies the rules to recognised items and decides the real clicks.
pub struct Actuator<'a> {
    pub parser: &'a Parser,
    pub info: &'a ArtifactInfo,
    pub rule_exprs: &'a Vec<RuleExpr>,
    pub coordinate: &'a CoordinateData,
}

/// The outcome for one item: its class, and the clicks to emit.
#[derive(Clone, Copy, Debug, PartialEq, Eq, Structural)]
pub struct Actuation {
    pub result: ActuatorResult,
    pub clicks: Clicks,
}

/// Why the rules could not be applied to an item.
#[derive(Clone, Debug)]
pub enum ActuatorError {
    /// A rule's expression failed to evaluate.
    Eval(EvalError),
    /// The rules left the item flagged but not held; the item is named.
    InvalidState(String),
}

/// The entries of `entries` whose name is among `keys`, in order.
fn keep_keys<V: Copy>(entries: &Vec<(String, V)>, keys: &Vec<String>) -> (r: Vec<(String, V)>)
    ensures
        entries_view(r@) == restrict(entries_view(entries@), keys.deep_view()),
{
    let mut out: Vec<(String, V)> = Vec::new();
    let mut i: usize = 0;
    while i < entries.len()
        invariant
            i <= entries@.len(),
            entries_view(out@) == restrict(
                entries_view(entries@.subrange(0, i as int)),
                keys.deep_view(),
            ),
        decreases entries@.len() - i,
    {
        let ghost pre = entries_view(entries@.subrange(0, i + 1));
        assert(pre.drop_last() =~= entries_view(entries@.subrange(0, i as int)));
        assert(pre.last() == (entries@[i as int].0@, entries@[i as int].1));
        if contains_name(keys, &entries[i].0) {
            let ghost prev = entries_view(out@);
            out.push((entries[i].0.clone(), entries[i].1));
            assert(entries_view(out@) =~= prev.push((entries@[i as int].0@, entries@[i as int].1)));
        }
        i = i + 1;
    }
    assert(entries@.subrange(0, i as int) =~= entries@);
    out
}

/// `a` with held and flagged set to `s`.
pub open spec fn with_state(a: Artifact, s: (bool, bool)) -> Artifact {
    Artifact { locked: s.0, marked: s.1, ..a }
}

/// The state of `a` after the first `n` rules, each evaluated on bindings
/// taken from the state the earlier ones left.
pub open spec fn run_rules(
    rules: Seq<RuleExpr>,
    info: ArtifactInfo,
    a: Artifact,
    dp: nat,
    n: nat,
) -> Result<(bool, bool), EvalFault>
    decreases n,
{
    if n == 0 || n > rules.len() {
        Ok((a.locked, a.marked))
    } else {
        match run_rules(rules, info, a, dp, (n - 1) as nat) {
            Err(e) => Err(e),
            Ok(s) => match eval(
                rules[n - 1].expr@,
                restrict(
                    boolean_bindings(info, a, s),
                    rules[n - 1].expr_var_key.boolean_keys.deep_view(),
                ),
                restrict(
                    number_bindings(info, a),
                    rules[n - 1].expr_var_key.number_keys.deep_view(),
                ),
                dp,
            ) {
                Err(e) => Err(e),
                Ok(ExprResult::Boolean(true)) => Ok(apply_action(s, rules[n - 1].rule.action)),
                Ok(_) => Ok(s),
            },
        }
    }
}

/// `r` and the item after the call are what the run of the rules gives:
/// its error, or its state with the outcome and clicks for that state.
pub open spec fn outcome_agrees(
    r: Result<Actuation, ActuatorError>,
    run: Result<(bool, bool), EvalFault>,
    before: Artifact,
    after: Artifact,
) -> bool {
    match run {
        Err(f) => match r {
            Err(ActuatorError::Eval(e)) => e@ == f,
            _ => false,
        },
        Ok(s) => {
            &&& after == with_state(before, s)
            &&& match decide_spec((before.locked, before.marked), s) {
                Some((res, clicks)) => r == Ok::<Actuation, ActuatorError>(
                    Actuation { result: res, clicks },
                ),
                None => match r {
                    Err(ActuatorError::InvalidState(n)) => n@ == before.name@,
                    _ => false,
                },
            }
        },
    }
}

impl<'a> Actuator<'a> {
    pub fn new(
        parser: &'a Parser,
        info: &'a ArtifactInfo,
        rule_exprs: &'a Vec<RuleExpr>,
        coordinate: &'a CoordinateData,
    ) -> (r: Actuator<'a>)
        ensures
            r.parser == parser && r.info == info && r.rule_exprs == rule_exprs && r.coordinate
                == coordinate,
    {
        Actuator { parser, info, rule_exprs, coordinate }
    }

    /// The bindings of `artifact` in its current state, for the names in
    /// `expr_var_key` only.
    pub fn generate_vars(&self, artifact: &Artifact, expr_var_key: &ExprVarKey) -> (r: ExprVar)
        ensures
            r.booleans() == restrict(
                boolean_bindings(*self.info, *artifact, (artifact.locked, artifact.marked)),
                expr_var_key.boolean_keys.deep_view(),
            ),
            r.numbers() == restrict(
                number_bindings(*self.info, *artifact),
                expr_var_key.number_keys.deep_view(),
            ),
    {
        let mut boolean_vars: Vec<(String, bool)> = Vec::new();
        let names = self.info.get_artifact_names();
        push_flags(&mut boolean_vars, &names, false);
        push_flags(&mut boolean_vars, &self.info.slots, false);
        let sets = self.info.get_artifact_set_names();
        push_flags(&mut boolean_vars, &sets, false);
        let mut own = artifact.get_boolean_maps(&self.info.words);
        let ghost before = entries_view(boolean_vars@);
        let ghost own_view = entries_view(own@);
        boolean_vars.append(&mut own);
        assert(entries_view(boolean_vars@) =~= before + own_view);
        let mut number_vars: Vec<(String, Dec)> = Vec::new();
        let keys = self.info.stat_keys();
        push_zeros(&mut number_vars, &keys);
        let mut nums = artifact.get_number_maps(&self.info.words);
        let ghost before_n = entries_view(number_vars@);
        let ghost nums_view = entries_view(nums@);
        number_vars.append(&mut nums);
        assert(entries_view(number_vars@) =~= before_n + nums_view);
        ExprVar {
            boolean_vars: keep_keys(&boolean_vars, &expr_var_key.boolean_keys),
            number_vars: keep_keys(&number_vars, &expr_var_key.number_keys),
        }
    }

    /// Applies every rule in order to `artifact`, each one seeing what the
    /// earlier ones did, then decides the clicks that take the real item
    /// from its recognised state to the result.
    pub fn exec(&self, artifact: &mut Artifact) -> (r: Result<Actuation, ActuatorError>)
        ensures
            outcome_agrees(
                r,
                run_rules(
                    self.rule_exprs@,
                    *self.info,
                    *old(artifact),
                    self.parser.precision as nat,
                    self.rule_exprs@.len(),
                ),
                *old(artifact),
                *final(artifact),
            ),
    {
        let ghost initial = *artifact;
        let before = (artifact.locked, artifact.marked);
        let mut i: usize = 0;
        while i < self.rule_exprs.len()
            invariant
                i <= self.rule_exprs@.len(),
                run_rules(
                    self.rule_exprs@,
                    *self.info,
                    initial,
                    self.parser.precision as nat,
                    i as nat,
                ) == Ok::<(bool, bool), EvalFault>((artifact.locked, artifact.marked)),
                *artifact == with_state(initial, (artifact.locked, artifact.marked)),
                before == (initial.locked, initial.marked),
                initial == *old(artifact),
            decreases self.rule_exprs@.len() - i,
        {
            let rule_expr = &self.rule_exprs[i];
            let vars = self.generate_vars(artifact, &rule_expr.expr_var_key);
            assert(number_bindings(*self.info, *artifact) == number_bindings(*self.info, initial));
            assert(boolean_bindings(*self.info, *artifact, (artifact.locked, artifact.marked))
                == boolean_bindings(*self.info, initial, (artifact.locked, artifact.marked)));
            match self.parser.exec(&rule_expr.expr, &vars) {
                Err(e) => {
                    assert(self.rule_exprs@[i as int] == *rule_expr);
                    assert(run_rules(
                        self.rule_exprs@,
                        *self.info,
                        initial,
                        self.parser.precision as nat,
                        (i + 1) as nat,
                    ) == Err::<(bool, bool), EvalFault>(e@));
                    proof {
                        lemma_run_rules_stops(
                            self.rule_exprs@,
                            *self.info,
                            initial,
                            self.parser.precision as nat,
                            (i + 1) as nat,
                        );
                    }
                    return Err(ActuatorError::Eval(e));
                },
                Ok(ExprResult::Boolean(true)) => {
                    let (l, m) = apply_rule_action(
                        artifact.locked,
                        artifact.marked,
                        rule_expr.rule.action,
                    );
                    artifact.locked = l;
                    artifact.marked = m;
                },
                Ok(_) => {},
            }
            i = i + 1;
        }
        match decide(before, (artifact.locked, artifact.marked)) {
            Ok((result, clicks)) => Ok(Actuation { result, clicks }),
            Err(_) => Err(ActuatorError::InvalidState(artifact.name.clone())),
        }
    }

    /// Where a control of the detail card is: lower by the elixir row when
    /// the item shows one.
    pub fn sanctifying_elixir_offset(&self, point: &Point, artifact: &Artifact) -> (r: Point)
        requires
            artifact.sanctifying_elixir ==> self.coordinate.artifact_sanctifying_elixir_height
                <= i32::MAX && in_i32(
                point.y + self.coordinate.artifact_sanctifying_elixir_height,
            ),
        ensures
            r.x == point.x,
            r.y == if artifact.sanctifying_elixir {
                point.y + self.coordinate.artifact_sanctifying_elixir_height
            } else {
                point.y as int
            },
    {
        if artifact.sanctifying_elixir {
            return point_offset(
                point,
                None,
                Some(self.coordinate.artifact_sanctifying_elixir_height as i32),
            );
        }
        *point
    }
}

/// Running the rules on an item in a legal state ends in a legal state, so
/// the engine never reports an invalid state for such an item.
pub proof fn lemma_run_rules_legal(
    rules: Seq<RuleExpr>,
    info: ArtifactInfo,
    a: Artifact,
    dp: nat,
    n: nat,
)
    requires
        legal((a.locked, a.marked)),
    ensures
        run_rules(rules, info, a, dp, n) matches Ok(s) ==> legal(s) && decide_spec(
            (a.locked, a.marked),
            s,
        ) is Some,
    decreases n,
{
    if n > 0 && n <= rules.len() {
        lemma_run_rules_legal(rules, info, a, dp, (n - 1) as nat);
        match run_rules(rules, info, a, dp, (n - 1) as nat) {
            Ok(s) => {
                lemma_action_result_legal(s, rules[n - 1].rule.action);
            },
            Err(_) => {},
        }
    }
}

/// Once a rule fails to evaluate, the run stops with an error.
proof fn lemma_run_rules_stops(
    rules: Seq<RuleExpr>,
    info: ArtifactInfo,
    a: Artifact,
    dp: nat,
    n: nat,
)
    requires
        0 < n <= rules.len(),
        run_rules(rules, info, a, dp, n) is Err,
    ensures
        run_rules(rules, info, a, dp, rules.len()) == run_rules(rules, info, a, dp, n),
    decreases rules.len() - n,
{
    if n < rules.len() {
        lemma_run_rules_stops(rules, info, a, dp, n + 1);
    }
}

} // verus!
