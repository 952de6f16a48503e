use vstd::prelude::*;

use crate::decimal::Dec;
use crate::eval::{contains_name, entries_view};
use crate::metadata::{
    artifact_names, qualified, qualified_name, set_names, ArtifactInfo, ArtifactWord,
};
use crate::rule::RuleExpr;

verus! {

/// A secondary stat of an item.
#[derive(Clone, Debug)]
pub struct ArtifactSubStat {
    pub name: String,
    pub value: Dec,
    pub unactivated: bool,
}

/// A recognised item: its attributes and its held ("locked") and flagged
/// ("marked") states.
#[derive(Clone, Debug)]
pub struct Artifact {
    pub name: String,
    pub slot: String,
    pub main_stat: String,
    pub main_stat_value: Dec,
    pub stars: Dec,
    pub sanctifying_elixir: bool,
    pub level: Dec,
    pub marked: bool,
    pub locked: bool,
    pub sub_stats: Vec<ArtifactSubStat>,
    pub set_name: String,
    pub equipped: bool,
}

/// An upgrade material found where an item was expected.
#[derive(Clone, Copy, Debug)]
pub struct ArtifactEnhancementMaterial {
    pub stars: Dec,
}

/// The boolean attributes of `a` when its state is `s` = (held, flagged).
pub open spec fn artifact_booleans(a: Artifact, w: ArtifactWord, s: (bool, bool)) -> Seq<
    (Seq<char>, bool),
> {
    seq![
        (a.name@, true),
        (a.slot@, true),
        (a.set_name@, true),
        (w.sanctifying_elixir@, a.sanctifying_elixir),
        (w.equipped@, a.equipped),
        (w.marked@, s.1),
        (w.locked@, s.0),
    ]
}

pub open spec fn activated_count(subs: Seq<ArtifactSubStat>) -> nat
    decreases subs.len(),
{
    if subs.len() == 0 {
        0
    } else {
        activated_count(subs.drop_last()) + if subs.last().unactivated {
            0nat
        } else {
            1nat
        }
    }
}

pub open spec fn sub_stat_numbers(subs: Seq<ArtifactSubStat>) -> Seq<(Seq<char>, Dec)> {
    subs.map_values(|x: ArtifactSubStat| (x.name@, x.value))
}

/// The number attributes of `a`.
pub open spec fn artifact_numbers(a: Artifact, w: ArtifactWord) -> Seq<(Seq<char>, Dec)> {
    seq![
        (w.star@, a.stars),
        (w.level@, a.level),
        (qualified(w.main_stat@, a.main_stat@), a.main_stat_value),
    ] + sub_stat_numbers(a.sub_stats@) + seq![
        (w.sub_stats_count@, Dec { mantissa: activated_count(a.sub_stats@) as i128, scale: 0 }),
    ]
}

pub open spec fn flags_of(names: Seq<Seq<char>>, v: bool) -> Seq<(Seq<char>, bool)> {
    names.map_values(|n: Seq<char>| (n, v))
}

pub open spec fn zeros_of(names: Seq<Seq<char>>) -> Seq<(Seq<char>, Dec)> {
    names.map_values(|n: Seq<char>| (n, Dec { mantissa: 0, scale: 0 }))
}

/// Every boolean binding of `a` in state `s`: each item, slot and set name
/// false, then the item's own attributes.
pub open spec fn boolean_bindings(info: ArtifactInfo, a: Artifact, s: (bool, bool)) -> Seq<
    (Seq<char>, bool),
> {
    flags_of(artifact_names(info.sets@), false) + flags_of(info.slots.deep_view(), false)
        + flags_of(set_names(info.sets@), false) + artifact_booleans(a, info.words, s)
}

/// Every number binding of `a`: each stat and main stat zero, then the
/// item's own values.
pub open spec fn number_bindings(info: ArtifactInfo, a: Artifact) -> Seq<(Seq<char>, Dec)> {
    zeros_of(crate::metadata::stat_number_keys(info.words.main_stat@, info.stats.deep_view()))
        + artifact_numbers(a, info.words)
}

pub(crate) fn push_flags(out: &mut Vec<(String, bool)>, names: &Vec<String>, v: bool)
    ensures
        entries_view(final(out)@) == entries_view(old(out)@) + flags_of(names.deep_view(), v),
{
    let ghost start = entries_view(out@);
    let mut i: usize = 0;
    while i < names.len()
        invariant
            i <= names@.len(),
            entries_view(out@) == start + flags_of(names.deep_view().subrange(0, i as int), v),
        decreases names@.len() - i,
    {
        let ghost prev = entries_view(out@);
        out.push((names[i].clone(), v));
        assert(entries_view(out@) =~= prev.push((names@[i as int]@, v)));
        assert(flags_of(names.deep_view().subrange(0, i + 1), v) =~= flags_of(
            names.deep_view().subrange(0, i as int),
            v,
        ).push((names@[i as int]@, v)));
        i = i + 1;
    }
    assert(names.deep_view().subrange(0, i as int) =~= names.deep_view());
}

pub(crate) fn push_zeros(out: &mut Vec<(String, Dec)>, names: &Vec<String>)
    ensures
        entries_view(final(out)@) == entries_view(old(out)@) + zeros_of(names.deep_view()),
{
    let ghost start = entries_view(out@);
    let mut i: usize = 0;
    while i < names.len()
        invariant
            i <= names@.len(),
            entries_view(out@) == start + zeros_of(names.deep_view().subrange(0, i as int)),
        decreases names@.len() - i,
    {
        let ghost prev = entries_view(out@);
        out.push((names[i].clone(), Dec { mantissa: 0, scale: 0 }));
        assert(entries_view(out@) =~= prev.push((names@[i as int]@, Dec { mantissa: 0, scale: 0 })));
        assert(zeros_of(names.deep_view().subrange(0, i + 1)) =~= zeros_of(
            names.deep_view().subrange(0, i as int),
        ).push((names@[i as int]@, Dec { mantissa: 0, scale: 0 })));
        i = i + 1;
    }
    assert(names.deep_view().subrange(0, i as int) =~= names.deep_view());
}

impl Artifact {
    /// The item's boolean attributes: its name, slot and set name are true.
    pub fn get_boolean_maps(&self, words: &ArtifactWord) -> (r: Vec<(String, bool)>)
        ensures
            entries_view(r@) == artifact_booleans(*self, *words, (self.locked, self.marked)),
    {
        let mut result: Vec<(String, bool)> = Vec::new();
        result.push((self.name.clone(), true));
        result.push((self.slot.clone(), true));
        result.push((self.set_name.clone(), true));
        result.push((words.sanctifying_elixir.clone(), self.sanctifying_elixir));
        result.push((words.equipped.clone(), self.equipped));
        result.push((words.marked.clone(), self.marked));
        result.push((words.locked.clone(), self.locked));
        assert(entries_view(result@) =~= artifact_booleans(
            *self,
            *words,
            (self.locked, self.marked),
        ));
        result
    }

    /// The item's number attributes, with the count of activated sub stats.
    pub fn get_number_maps(&self, words: &ArtifactWord) -> (r: Vec<(String, Dec)>)
        ensures
            entries_view(r@) == artifact_numbers(*self, *words),
    {
        let mut result: Vec<(String, Dec)> = Vec::new();
        result.push((words.star.clone(), self.stars));
        result.push((words.level.clone(), self.level));
        result.push((qualified_name(&words.main_stat, &self.main_stat), self.main_stat_value));
        let ghost head = seq![
            (words.star@, self.stars),
            (words.level@, self.level),
            (qualified(words.main_stat@, self.main_stat@), self.main_stat_value),
        ];
        assert(entries_view(result@) =~= head);
        let mut count: u64 = 0;
        let mut i: usize = 0;
        while i < self.sub_stats.len()
            invariant
                i <= self.sub_stats@.len(),
                entries_view(result@) == head + sub_stat_numbers(
                    self.sub_stats@.subrange(0, i as int),
                ),
                count == activated_count(self.sub_stats@.subrange(0, i as int)),
                count <= i,
            decreases self.sub_stats@.len() - i,
        {
            let sub = &self.sub_stats[i];
            let ghost prev = entries_view(result@);
            result.push((sub.name.clone(), sub.value));
            assert(entries_view(result@) =~= prev.push((sub.name@, sub.value)));
            let ghost s = self.sub_stats@.subrange(0, i + 1);
            assert(s.drop_last() =~= self.sub_stats@.subrange(0, i as int));
            assert(sub_stat_numbers(s) =~= sub_stat_numbers(self.sub_stats@.subrange(0, i as int)).push(
                (sub.name@, sub.value),
            ));
            if !sub.unactivated {
                count = count + 1;
            }
            i = i + 1;
        }
        assert(self.sub_stats@.subrange(0, i as int) =~= self.sub_stats@);
        let ghost prev = entries_view(result@);
        result.push((words.sub_stats_count.clone(), Dec { mantissa: count as i128, scale: 0 }));
        assert(entries_view(result@) =~= prev.push(
            (words.sub_stats_count@, Dec { mantissa: count as i128, scale: 0 }),
        ));
        assert(entries_view(result@) =~= artifact_numbers(*self, *words));
        result
    }
}

/// Which attributes recognition should extract, because some rule reads
/// them.
#[derive(Clone, Copy, Debug, PartialEq, Eq, Structural)]
pub struct ArtifactIdentify {
    pub name: bool,
    pub slot: bool,
    pub main_stat: bool,
    pub main_stat_value: bool,
    pub stars: bool,
    pub sub_stats: bool,
    pub sub_stats_count: bool,
    pub set_name: bool,
    pub equipped: bool,
    pub level: bool,
}

/// The variable names of all rules, rule by rule.
pub open spec fn rule_keys(rules: Seq<RuleExpr>) -> Seq<Seq<char>>
    decreases rules.len(),
{
    if rules.len() == 0 {
        Seq::empty()
    } else {
        rule_keys(rules.drop_last()) + rules.last().expr_var_key.boolean_keys.deep_view()
            + rules.last().expr_var_key.number_keys.deep_view()
    }
}

/// Some name of `names` is among `keys`.
pub open spec fn any_named(names: Seq<Seq<char>>, keys: Seq<Seq<char>>) -> bool {
    exists|i: int| 0 <= i < names.len() && keys.contains(#[trigger] names[i])
}

/// Some stat is read in its main-stat form `main:stat`.
pub open spec fn any_main_stat(main: Seq<char>, stats: Seq<Seq<char>>, keys: Seq<Seq<char>>) -> bool {
    exists|i: int| 0 <= i < stats.len() && keys.contains(qualified(main, #[trigger] stats[i]))
}

/// What recognition must extract for rules that read `keys`. A set name and
/// the count of sub stats are read off the sub stats, so either one asks
/// for the sub stats too.
pub open spec fn identify_spec(info: ArtifactInfo, keys: Seq<Seq<char>>) -> ArtifactIdentify {
    let w = info.words;
    let set_name = any_named(set_names(info.sets@), keys);
    let count = keys.contains(w.sub_stats_count@);
    let main = any_main_stat(w.main_stat@, info.stats.deep_view(), keys);
    ArtifactIdentify {
        name: any_named(artifact_names(info.sets@), keys),
        slot: any_named(info.slots.deep_view(), keys),
        main_stat: main,
        main_stat_value: main,
        stars: keys.contains(w.star@),
        sub_stats: any_named(info.stats.deep_view(), keys) || set_name || count,
        sub_stats_count: count,
        set_name,
        equipped: keys.contains(w.equipped@),
        level: keys.contains(w.level@),
    }
}

fn any_in(names: &Vec<String>, keys: &Vec<String>) -> (r: bool)
    ensures
        r == any_named(names.deep_view(), keys.deep_view()),
{
    let mut i: usize = 0;
    while i < names.len()
        invariant
            i <= names@.len(),
            forall|j: int| 0 <= j < i ==> !keys.deep_view().contains(#[trigger] names.deep_view()[j]),
        decreases names@.len() - i,
    {
        if contains_name(keys, &names[i]) {
            assert(keys.deep_view().contains(names.deep_view()[i as int]));
            return true;
        }
        i = i + 1;
    }
    false
}

fn any_main(main: &String, stats: &Vec<String>, keys: &Vec<String>) -> (r: bool)
    ensures
        r == any_main_stat(main@, stats.deep_view(), keys.deep_view()),
{
    let mut i: usize = 0;
    while i < stats.len()
        invariant
            i <= stats@.len(),
            forall|j: int|
                0 <= j < i ==> !keys.deep_view().contains(
                    qualified(main@, #[trigger] stats.deep_view()[j]),
                ),
        decreases stats@.len() - i,
    {
        let q = qualified_name(main, &stats[i]);
        if contains_name(keys, &q) {
            assert(stats.deep_view()[i as int] == stats@[i as int]@);
            return true;
        }
        i = i + 1;
    }
    false
}

impl ArtifactIdentify {
    /// Nothing to extract.
    pub fn default() -> (r: ArtifactIdentify)
        ensures
            !r.name && !r.slot && !r.main_stat && !r.main_stat_value && !r.stars && !r.sub_stats
                && !r.sub_stats_count && !r.set_name && !r.equipped && !r.level,
    {
        ArtifactIdentify {
            name: false,
            slot: false,
            main_stat: false,
            main_stat_value: false,
            stars: false,
            sub_stats: false,
            sub_stats_count: false,
            set_name: false,
            equipped: false,
            level: false,
        }
    }

    /// Decides which attributes to extract from the variables the rules
    /// read.
    pub fn filter(rule_exprs: &Vec<RuleExpr>, info: &ArtifactInfo) -> (r: ArtifactIdentify)
        ensures
            r == identify_spec(*info, rule_keys(rule_exprs@)),
    {
        let mut all_keys: Vec<String> = Vec::new();
        let mut i: usize = 0;
        while i < rule_exprs.len()
            invariant
                i <= rule_exprs@.len(),
                all_keys.deep_view() == rule_keys(rule_exprs@.subrange(0, i as int)),
            decreases rule_exprs@.len() - i,
        {
            let k = &rule_exprs[i].expr_var_key;
            crate::metadata::push_names(&mut all_keys, &k.boolean_keys);
            crate::metadata::push_names(&mut all_keys, &k.number_keys);
            assert(rule_exprs@.subrange(0, i + 1).drop_last() =~= rule_exprs@.subrange(
                0,
                i as int,
            ));
            i = i + 1;
        }
        assert(rule_exprs@.subrange(0, i as int) =~= rule_exprs@);
        let w = &info.words;
        let names = info.get_artifact_names();
        let sets = info.get_artifact_set_names();
        let set_name = any_in(&sets, &all_keys);
        let count = contains_name(&all_keys, &w.sub_stats_count);
        let main = any_main(&w.main_stat, &info.stats, &all_keys);
        let sub_stats = any_in(&info.stats, &all_keys) || set_name || count;
        ArtifactIdentify {
            name: any_in(&names, &all_keys),
            slot: any_in(&info.slots, &all_keys),
            main_stat: main,
            main_stat_value: main,
            stars: contains_name(&all_keys, &w.star),
            sub_stats,
            sub_stats_count: count,
            set_name,
            equipped: contains_name(&all_keys, &w.equipped),
            level: contains_name(&all_keys, &w.level),
        }
    }
}

} // verus!
