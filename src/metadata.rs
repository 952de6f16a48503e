use vstd::prelude::*;

use crate::eval::lookup;

verus! {

/// A named item of a set, with the other spellings recognition may give.
#[derive(Clone, Debug)]
pub struct Artifact {
    pub name: String,
    pub alias: Option<Vec<String>>,
}

/// A set of items, with its own other spellings.
#[derive(Clone, Debug)]
pub struct ArtifactSet {
    pub name: String,
    pub alias: Option<Vec<String>>,
    pub artifacts: Vec<Artifact>,
}

/// The fixed words of the inventory screen and of rule vocabulary.
#[derive(Clone, Debug)]
pub struct ArtifactWord {
    pub artifact: String,
    pub star: String,
    pub level: String,
    pub equipped: String,
    pub locked: String,
    pub marked: String,
    pub sanctifying_elixir: String,
    pub main_stat: String,
    pub sub_stats_count: String,
    pub unactivated: String,
    pub no_match_artifacts: String,
}

/// Everything recognition can name: slots, stats, sets and their items,
/// and the fixed words.
#[derive(Clone, Debug)]
pub struct ArtifactInfo {
    pub slots: Vec<String>,
    pub stats: Vec<String>,
    pub sets: Vec<ArtifactSet>,
    pub words: ArtifactWord,
}

/// The pairs with both names seen as their characters.
pub open spec fn pairs_view(v: Seq<(String, String)>) -> Seq<(Seq<char>, Seq<char>)> {
    v.map_values(|p: (String, String)| (p.0@, p.1@))
}

pub open spec fn item_names(arts: Seq<Artifact>) -> Seq<Seq<char>> {
    arts.map_values(|a: Artifact| a.name@)
}

/// The names of the items of all sets, set by set.
pub open spec fn artifact_names(sets: Seq<ArtifactSet>) -> Seq<Seq<char>>
    decreases sets.len(),
{
    if sets.len() == 0 {
        Seq::empty()
    } else {
        artifact_names(sets.drop_last()) + item_names(sets.last().artifacts@)
    }
}

pub open spec fn set_names(sets: Seq<ArtifactSet>) -> Seq<Seq<char>> {
    sets.map_values(|s: ArtifactSet| s.name@)
}

/// (spelling, name) for a name and each of its other spellings.
pub open spec fn spellings(name: Seq<char>, alias: Option<Vec<String>>) -> Seq<(Seq<char>, Seq<char>)> {
    seq![(name, name)] + match alias {
        Some(v) => v@.map_values(|s: String| (s@, name)),
        None => Seq::empty(),
    }
}

pub open spec fn item_spellings(arts: Seq<Artifact>) -> Seq<(Seq<char>, Seq<char>)>
    decreases arts.len(),
{
    if arts.len() == 0 {
        Seq::empty()
    } else {
        item_spellings(arts.drop_last()) + spellings(arts.last().name@, arts.last().alias)
    }
}

/// Every spelling of every item, with the item's name.
pub open spec fn artifact_spellings(sets: Seq<ArtifactSet>) -> Seq<(Seq<char>, Seq<char>)>
    decreases sets.len(),
{
    if sets.len() == 0 {
        Seq::empty()
    } else {
        artifact_spellings(sets.drop_last()) + item_spellings(sets.last().artifacts@)
    }
}

/// Every spelling of every set, with the set's name.
pub open spec fn set_spellings(sets: Seq<ArtifactSet>) -> Seq<(Seq<char>, Seq<char>)>
    decreases sets.len(),
{
    if sets.len() == 0 {
        Seq::empty()
    } else {
        set_spellings(sets.drop_last()) + spellings(sets.last().name@, sets.last().alias)
    }
}

/// `prefix:name`, the name of a value qualified by a category.
pub open spec fn qualified(prefix: Seq<char>, name: Seq<char>) -> Seq<char> {
    prefix + seq![':'] + name
}

/// Each stat, followed by its main-stat form.
pub open spec fn stat_number_keys(prefix: Seq<char>, stats: Seq<Seq<char>>) -> Seq<Seq<char>>
    decreases stats.len(),
{
    if stats.len() == 0 {
        Seq::empty()
    } else {
        stat_number_keys(prefix, stats.drop_last()) + seq![
            stats.last(),
            qualified(prefix, stats.last()),
        ]
    }
}

/// Builds `prefix:name`.
pub fn qualified_name(prefix: &String, name: &String) -> (r: String)
    ensures
        r@ == qualified(prefix@, name@),
{
    let mut k = prefix.clone();
    k.append(":");
    proof {
        reveal_strlit(":");
        assert(":"@ =~= seq![':']);
    }
    k.append(name.as_str());
    k
}

pub(crate) fn push_names(out: &mut Vec<String>, names: &Vec<String>)
    ensures
        final(out).deep_view() == old(out).deep_view() + names.deep_view(),
{
    let ghost start = out.deep_view();
    let mut i: usize = 0;
    while i < names.len()
        invariant
            i <= names@.len(),
            out.deep_view() == start + names.deep_view().subrange(0, i as int),
        decreases names@.len() - i,
    {
        let ghost before = out.deep_view();
        let item = names[i].clone();
        out.push(item);
        assert(out.deep_view() =~= before.push(names@[i as int]@));
        assert(names.deep_view().subrange(0, i + 1) =~= names.deep_view().subrange(0, i as int).push(
            names@[i as int]@,
        ));
        assert(out.deep_view() =~= start + names.deep_view().subrange(0, i + 1));
        i = i + 1;
    }
    assert(names.deep_view().subrange(0, i as int) =~= names.deep_view());
}

fn push_spellings(out: &mut Vec<(String, String)>, name: &String, alias: &Option<Vec<String>>)
    ensures
        pairs_view(final(out)@) == pairs_view(old(out)@) + spellings(name@, *alias),
{
    let ghost start = pairs_view(out@);
    out.push((name.clone(), name.clone()));
    assert(pairs_view(out@) =~= start + seq![(name@, name@)]);
    if let Some(v) = alias {
        let ghost extra = v@.map_values(|s: String| (s@, name@));
        let mut i: usize = 0;
        while i < v.len()
            invariant
                i <= v@.len(),
                extra == v@.map_values(|s: String| (s@, name@)),
                pairs_view(out@) == start + seq![(name@, name@)] + extra.subrange(0, i as int),
            decreases v@.len() - i,
        {
            let ghost prev = pairs_view(out@);
            out.push((v[i].clone(), name.clone()));
            assert(pairs_view(out@) =~= prev.push((v@[i as int]@, name@)));
            assert(extra.subrange(0, i + 1) =~= extra.subrange(0, i as int).push(extra[i as int]));
            assert(pairs_view(out@) =~= start + seq![(name@, name@)] + extra.subrange(
                0,
                i + 1,
            ));
            i = i + 1;
        }
        assert(extra.subrange(0, i as int) =~= extra);
    } else {
        assert(spellings(name@, *alias) =~= seq![(name@, name@)]);
    }
}

fn find_name(entries: &Vec<(String, String)>, key: &str) -> (r: Option<String>)
    ensures
        match (r, lookup(pairs_view(entries@), key@)) {
            (Some(s), Some(t)) => s@ == t,
            (None, None) => true,
            _ => false,
        },
{
    let mut i = entries.len();
    assert(entries@.subrange(0, i as int) =~= entries@);
    while i > 0
        invariant
            i <= entries@.len(),
            lookup(pairs_view(entries@), key@) == lookup(
                pairs_view(entries@.subrange(0, i as int)),
                key@,
            ),
        decreases i,
    {
        let ghost pre = pairs_view(entries@.subrange(0, i as int));
        assert(pre.drop_last() =~= pairs_view(entries@.subrange(0, i - 1)));
        if entries[i - 1].0.as_str().unicode_len() == key.unicode_len() && str_eq(
            entries[i - 1].0.as_str(),
            key,
        ) {
            return Some(entries[i - 1].1.clone());
        }
        i = i - 1;
    }
    None
}

fn str_eq(a: &str, b: &str) -> (r: bool)
    ensures
        r == (a@ == b@),
{
    let n = a.unicode_len();
    if n != b.unicode_len() {
        return false;
    }
    let mut i: usize = 0;
    while i < n
        invariant
            n == a@.len() == b@.len(),
            i <= n,
            a@.subrange(0, i as int) == b@.subrange(0, i as int),
        decreases n - i,
    {
        if a.get_char(i) != b.get_char(i) {
            assert(a@[i as int] != b@[i as int]);
            return false;
        }
        assert(a@.subrange(0, i + 1) =~= a@.subrange(0, i as int).push(a@[i as int]));
        assert(b@.subrange(0, i + 1) =~= b@.subrange(0, i as int).push(b@[i as int]));
        i = i + 1;
    }
    assert(a@ =~= a@.subrange(0, n as int));
    assert(b@ =~= b@.subrange(0, n as int));
    true
}

impl ArtifactInfo {
    /// Each spelling of an item with the item's name, in order.
    pub fn artifact_name_map(&self) -> (r: Vec<(String, String)>)
        ensures
            pairs_view(r@) == artifact_spellings(self.sets@),
    {
        let mut out: Vec<(String, String)> = Vec::new();
        let mut i: usize = 0;
        while i < self.sets.len()
            invariant
                i <= self.sets@.len(),
                pairs_view(out@) == artifact_spellings(self.sets@.subrange(0, i as int)),
            decreases self.sets@.len() - i,
        {
            let set = &self.sets[i];
            let ghost before = pairs_view(out@);
            let mut j: usize = 0;
            while j < set.artifacts.len()
                invariant
                    j <= set.artifacts@.len(),
                    pairs_view(out@) == before + item_spellings(
                        set.artifacts@.subrange(0, j as int),
                    ),
                decreases set.artifacts@.len() - j,
            {
                let a = &set.artifacts[j];
                push_spellings(&mut out, &a.name, &a.alias);
                assert(set.artifacts@.subrange(0, j + 1).drop_last() =~= set.artifacts@.subrange(
                    0,
                    j as int,
                ));
                assert(pairs_view(out@) =~= before + item_spellings(
                    set.artifacts@.subrange(0, j + 1),
                ));
                j = j + 1;
            }
            assert(set.artifacts@.subrange(0, j as int) =~= set.artifacts@);
            assert(self.sets@.subrange(0, i + 1).drop_last() =~= self.sets@.subrange(0, i as int));
            i = i + 1;
        }
        assert(self.sets@.subrange(0, i as int) =~= self.sets@);
        out
    }

    /// Each spelling of a set with the set's name, in order.
    pub fn artifact_set_name_map(&self) -> (r: Vec<(String, String)>)
        ensures
            pairs_view(r@) == set_spellings(self.sets@),
    {
        let mut out: Vec<(String, String)> = Vec::new();
        let mut i: usize = 0;
        while i < self.sets.len()
            invariant
                i <= self.sets@.len(),
                pairs_view(out@) == set_spellings(self.sets@.subrange(0, i as int)),
            decreases self.sets@.len() - i,
        {
            let set = &self.sets[i];
            push_spellings(&mut out, &set.name, &set.alias);
            assert(self.sets@.subrange(0, i + 1).drop_last() =~= self.sets@.subrange(0, i as int));
            i = i + 1;
        }
        assert(self.sets@.subrange(0, i as int) =~= self.sets@);
        out
    }

    /// The names of all items, without other spellings.
    pub fn get_artifact_names(&self) -> (r: Vec<String>)
        ensures
            r.deep_view() == artifact_names(self.sets@),
    {
        let mut out: Vec<String> = Vec::new();
        let mut i: usize = 0;
        while i < self.sets.len()
            invariant
                i <= self.sets@.len(),
                out.deep_view() == artifact_names(self.sets@.subrange(0, i as int)),
            decreases self.sets@.len() - i,
        {
            let set = &self.sets[i];
            let ghost before = out.deep_view();
            let mut j: usize = 0;
            while j < set.artifacts.len()
                invariant
                    j <= set.artifacts@.len(),
                    out.deep_view() == before + item_names(set.artifacts@.subrange(0, j as int)),
                decreases set.artifacts@.len() - j,
            {
                let ghost prev = out.deep_view();
                out.push(set.artifacts[j].name.clone());
                assert(out.deep_view() =~= prev.push(set.artifacts@[j as int].name@));
                assert(item_names(set.artifacts@.subrange(0, j + 1)) =~= item_names(
                    set.artifacts@.subrange(0, j as int),
                ).push(set.artifacts@[j as int].name@));
                assert(out.deep_view() =~= before + item_names(
                    set.artifacts@.subrange(0, j + 1),
                ));
                j = j + 1;
            }
            assert(set.artifacts@.subrange(0, j as int) =~= set.artifacts@);
            assert(self.sets@.subrange(0, i + 1).drop_last() =~= self.sets@.subrange(0, i as int));
            i = i + 1;
        }
        assert(self.sets@.subrange(0, i as int) =~= self.sets@);
        out
    }

    /// The names of all sets, without other spellings.
    pub fn get_artifact_set_names(&self) -> (r: Vec<String>)
        ensures
            r.deep_view() == set_names(self.sets@),
    {
        let mut out: Vec<String> = Vec::new();
        let mut i: usize = 0;
        while i < self.sets.len()
            invariant
                i <= self.sets@.len(),
                out.deep_view() == set_names(self.sets@.subrange(0, i as int)),
            decreases self.sets@.len() - i,
        {
            let ghost prev = out.deep_view();
            out.push(self.sets[i].name.clone());
            assert(out.deep_view() =~= prev.push(self.sets@[i as int].name@));
            assert(set_names(self.sets@.subrange(0, i + 1)) =~= set_names(
                self.sets@.subrange(0, i as int),
            ).push(self.sets@[i as int].name@));
            assert(out.deep_view() =~= set_names(self.sets@.subrange(0, i + 1)));
            i = i + 1;
        }
        assert(self.sets@.subrange(0, i as int) =~= self.sets@);
        out
    }

    /// The item name spelled `alias`; the last item listed wins.
    pub fn get_artifact_name_by_alias(&self, alias: &str) -> (r: Option<String>)
        ensures
            match (r, lookup(artifact_spellings(self.sets@), alias@)) {
                (Some(s), Some(t)) => s@ == t,
                (None, None) => true,
                _ => false,
            },
    {
        let map = self.artifact_name_map();
        find_name(&map, alias)
    }

    /// The set name spelled `alias`; the last set listed wins.
    pub fn get_artifact_set_name_by_alias(&self, alias: &str) -> (r: Option<String>)
        ensures
            match (r, lookup(set_spellings(self.sets@), alias@)) {
                (Some(s), Some(t)) => s@ == t,
                (None, None) => true,
                _ => false,
            },
    {
        let map = self.artifact_set_name_map();
        find_name(&map, alias)
    }

    /// The boolean attribute names a rule may read.
    pub fn get_boolean_keys(&self) -> (r: Vec<String>)
        ensures
            r.deep_view() == seq![
                self.words.equipped@,
                self.words.marked@,
                self.words.locked@,
                self.words.sanctifying_elixir@,
            ] + self.slots.deep_view() + self.stats.deep_view() + set_names(self.sets@)
                + artifact_names(self.sets@),
    {
        let mut result: Vec<String> = Vec::new();
        result.push(self.words.equipped.clone());
        result.push(self.words.marked.clone());
        result.push(self.words.locked.clone());
        result.push(self.words.sanctifying_elixir.clone());
        assert(result.deep_view() =~= seq![
            self.words.equipped@,
            self.words.marked@,
            self.words.locked@,
            self.words.sanctifying_elixir@,
        ]);
        push_names(&mut result, &self.slots);
        push_names(&mut result, &self.stats);
        let set_names = self.get_artifact_set_names();
        push_names(&mut result, &set_names);
        let names = self.get_artifact_names();
        push_names(&mut result, &names);
        result
    }

    /// Each stat name, followed by its main-stat form `main:stat`.
    pub fn stat_keys(&self) -> (r: Vec<String>)
        ensures
            r.deep_view() == stat_number_keys(self.words.main_stat@, self.stats.deep_view()),
    {
        let mut result: Vec<String> = Vec::new();
        let mut i: usize = 0;
        while i < self.stats.len()
            invariant
                i <= self.stats@.len(),
                result.deep_view() == stat_number_keys(
                    self.words.main_stat@,
                    self.stats.deep_view().subrange(0, i as int),
                ),
            decreases self.stats@.len() - i,
        {
            let stat = &self.stats[i];
            let ghost prev = result.deep_view();
            result.push(stat.clone());
            let q = qualified_name(&self.words.main_stat, stat);
            let ghost mid = result.deep_view();
            assert(mid =~= prev.push(stat@));
            result.push(q);
            assert(result.deep_view() =~= prev + seq![stat@, qualified(self.words.main_stat@, stat@)]);
            assert(self.stats.deep_view()[i as int] == stat@);
            let ghost s = self.stats.deep_view().subrange(0, i + 1);
            assert(s.drop_last() =~= self.stats.deep_view().subrange(0, i as int));
            assert(result.deep_view() =~= stat_number_keys(self.words.main_stat@, s));
            i = i + 1;
        }
        assert(self.stats.deep_view().subrange(0, i as int) =~= self.stats.deep_view());
        result
    }

    /// The number attribute names a rule may read.
    pub fn get_number_keys(&self) -> (r: Vec<String>)
        ensures
            r.deep_view() == seq![
                self.words.star@,
                self.words.level@,
                self.words.sub_stats_count@,
            ] + stat_number_keys(self.words.main_stat@, self.stats.deep_view()),
    {
        let mut result: Vec<String> = Vec::new();
        result.push(self.words.star.clone());
        result.push(self.words.level.clone());
        result.push(self.words.sub_stats_count.clone());
        assert(result.deep_view() =~= seq![
            self.words.star@,
            self.words.level@,
            self.words.sub_stats_count@,
        ]);
        let keys = self.stat_keys();
        push_names(&mut result, &keys);
        result
    }
}

} // verus!
