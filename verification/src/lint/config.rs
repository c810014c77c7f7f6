//! The linter's configuration: per-rule levels and thresholds.

use crate::lint::diagnostics::DiagnosticLevel;
use crate::text::str_eq;
use vstd::prelude::*;

verus! {

/// Rule levels keyed by rule name; each name occurs at most once.
#[derive(Debug)]
pub struct RuleMap {
    entries: Vec<(String, DiagnosticLevel)>,
}

/// The pairs of a rule map as plain values.
pub open spec fn entries_model(es: Seq<(String, DiagnosticLevel)>) -> Seq<(Seq<char>, DiagnosticLevel)> {
    es.map_values(|e: (String, DiagnosticLevel)| (e.0@, e.1))
}

/// The map that the pairs `s` spell, later pairs overriding earlier ones.
pub open spec fn pairs_to_map(s: Seq<(Seq<char>, DiagnosticLevel)>) -> Map<Seq<char>, DiagnosticLevel>
    decreases s.len(),
{
    if s.len() == 0 {
        Map::empty()
    } else {
        pairs_to_map(s.drop_last()).insert(s.last().0, s.last().1)
    }
}

/// No name occurs twice.
pub open spec fn distinct_keys(s: Seq<(Seq<char>, DiagnosticLevel)>) -> bool {
    forall|i: int, j: int| 0 <= i < j < s.len() ==> (#[trigger] s[i]).0 != (#[trigger] s[j]).0
}

proof fn lemma_pairs_lookup(s: Seq<(Seq<char>, DiagnosticLevel)>, k: Seq<char>)
    requires
        distinct_keys(s),
    ensures
        forall|i: int| 0 <= i < s.len() && (#[trigger] s[i]).0 == k ==> pairs_to_map(s).dom().contains(k) && pairs_to_map(s)[k] == s[i].1,
        (forall|i: int| 0 <= i < s.len() ==> (#[trigger] s[i]).0 != k) ==> !pairs_to_map(s).dom().contains(k),
    decreases s.len(),
{
    if s.len() > 0 {
        let sp = s.drop_last();
        assert(distinct_keys(sp)) by {
            assert forall|i: int, j: int| 0 <= i < j < sp.len() implies (#[trigger] sp[i]).0 != (#[trigger] sp[j]).0 by {
                assert(sp[i] == s[i] && sp[j] == s[j]);
            }
        }
        lemma_pairs_lookup(sp, k);
        assert forall|i: int| 0 <= i < s.len() && (#[trigger] s[i]).0 == k implies pairs_to_map(s).dom().contains(k) && pairs_to_map(s)[k] == s[i].1 by {
            if i < s.len() - 1 {
                assert(sp[i] == s[i]);
                assert(s[i].0 != s[s.len() - 1].0);
            }
        }
        if forall|i: int| 0 <= i < s.len() ==> (#[trigger] s[i]).0 != k {
            assert forall|i: int| 0 <= i < sp.len() implies (#[trigger] sp[i]).0 != k by { assert(sp[i] == s[i]); }
            assert(s[s.len() - 1].0 != k);
        }
    }
}

proof fn lemma_pairs_update(s: Seq<(Seq<char>, DiagnosticLevel)>, i: int, v: DiagnosticLevel)
    requires
        distinct_keys(s),
        0 <= i < s.len(),
    ensures
        pairs_to_map(s.update(i, (s[i].0, v))) == pairs_to_map(s).insert(s[i].0, v),
        distinct_keys(s.update(i, (s[i].0, v))),
    decreases s.len(),
{
    let t = s.update(i, (s[i].0, v));
    assert(distinct_keys(t)) by {
        assert forall|a: int, b: int| 0 <= a < b < t.len() implies (#[trigger] t[a]).0 != (#[trigger] t[b]).0 by {
            assert(t[a].0 == s[a].0 && t[b].0 == s[b].0);
        }
    }
    let sp = s.drop_last();
    assert(distinct_keys(sp)) by {
        assert forall|a: int, b: int| 0 <= a < b < sp.len() implies (#[trigger] sp[a]).0 != (#[trigger] sp[b]).0 by {
            assert(sp[a] == s[a] && sp[b] == s[b]);
        }
    }
    if i == s.len() - 1 {
        assert(t.drop_last() =~= sp);
        assert(pairs_to_map(s).insert(s[i].0, v) =~= pairs_to_map(sp).insert(s[i].0, s[i].1).insert(s[i].0, v));
        assert(pairs_to_map(t) =~= pairs_to_map(sp).insert(s[i].0, v));
    } else {
        lemma_pairs_update(sp, i, v);
        assert(t.drop_last() =~= sp.update(i, (sp[i].0, v)));
        assert(s[i].0 != s[s.len() - 1].0);
        assert(pairs_to_map(t) =~= pairs_to_map(sp).insert(s[i].0, v).insert(s.last().0, s.last().1));
        assert(pairs_to_map(s).insert(s[i].0, v) =~= pairs_to_map(sp).insert(s.last().0, s.last().1).insert(s[i].0, v));
    }
}

impl RuleMap {
    #[verifier::type_invariant]
    spec fn keys_distinct(self) -> bool {
        distinct_keys(entries_model(self.entries@))
    }

    /// The levels as a map from rule name.
    pub closed spec fn spec_map(self) -> Map<Seq<char>, DiagnosticLevel> {
        pairs_to_map(entries_model(self.entries@))
    }

    /// An empty map.
    pub fn new() -> (r: Self)
        ensures
            r.spec_map() == Map::<Seq<char>, DiagnosticLevel>::empty(),
    {
        let r = RuleMap { entries: Vec::new() };
        proof { assert(entries_model(r.entries@) =~= Seq::<(Seq<char>, DiagnosticLevel)>::empty()); }
        r
    }

    fn find(&self, key: &str) -> (r: Option<usize>)
        ensures
            match r {
                Some(i) => i < self.entries@.len() && self.entries@[i as int].0@ == key@,
                None => forall|i: int| 0 <= i < self.entries@.len() ==> (#[trigger] self.entries@[i]).0@ != key@,
            },
    {
        for i in 0..self.entries.len()
            invariant
                forall|k: int| 0 <= k < i ==> (#[trigger] self.entries@[k]).0@ != key@,
        {
            if str_eq(self.entries[i].0.as_str(), key) {
                return Some(i);
            }
        }
        None
    }

    /// The level of rule `key`, if it has one.
    pub fn get(&self, key: &str) -> (r: Option<&DiagnosticLevel>)
        ensures
            match r {
                Some(l) => self.spec_map().dom().contains(key@) && self.spec_map()[key@] == *l,
                None => !self.spec_map().dom().contains(key@),
            },
    {
        proof { use_type_invariant(self); }
        let ghost m = entries_model(self.entries@);
        proof { lemma_pairs_lookup(m, key@); }
        match self.find(key) {
            Some(i) => {
                proof { assert(m[i as int].0 == key@); }
                Some(&self.entries[i].1)
            },
            None => {
                proof {
                    assert forall|i: int| 0 <= i < m.len() implies (#[trigger] m[i]).0 != key@ by {
                        assert(m[i].0 == self.entries@[i].0@);
                    }
                }
                None
            },
        }
    }

    /// Sets the level of rule `key`, returning the level it had before.
    pub fn insert(&mut self, key: String, level: DiagnosticLevel) -> (r: Option<DiagnosticLevel>)
        ensures
            final(self).spec_map() == old(self).spec_map().insert(key@, level),
            match r {
                Some(l) => old(self).spec_map().dom().contains(key@) && old(self).spec_map()[key@] == l,
                None => !old(self).spec_map().dom().contains(key@),
            },
    {
        proof { use_type_invariant(&*self); }
        let ghost m = entries_model(self.entries@);
        proof { lemma_pairs_lookup(m, key@); }
        match self.find(key.as_str()) {
            Some(i) => {
                let previous = self.entries[i].1;
                let mut entries: Vec<(String, DiagnosticLevel)> = Vec::new();
                std::mem::swap(&mut entries, &mut self.entries);
                proof { assert(m[i as int].0 == key@); }
                entries.set(i, (key, level));
                proof {
                    lemma_pairs_update(m, i as int, level);
                    assert(entries_model(entries@) =~= m.update(i as int, (m[i as int].0, level)));
                }
                self.entries = entries;
                Some(previous)
            },
            None => {
                proof {
                    assert forall|i: int| 0 <= i < m.len() implies (#[trigger] m[i]).0 != key@ by {
                        assert(m[i].0 == self.entries@[i].0@);
                    }
                }
                let ghost kv = key@;
                let mut entries: Vec<(String, DiagnosticLevel)> = Vec::new();
                std::mem::swap(&mut entries, &mut self.entries);
                entries.push((key, level));
                proof {
                    assert(entries_model(entries@) =~= m.push((kv, level)));
                    assert(entries_model(entries@).drop_last() =~= m);
                    let t = entries_model(entries@);
                    assert forall|a: int, b: int| 0 <= a < b < t.len() implies (#[trigger] t[a]).0 != (#[trigger] t[b]).0 by {
                        if b == t.len() - 1 { assert(t[a] == m[a]); } else { assert(t[a] == m[a] && t[b] == m[b]); }
                    }
                }
                self.entries = entries;
                None
            },
        }
    }

    /// The number of rules with a level.
    pub fn len(&self) -> (r: usize)
        ensures
            r == self.spec_map().dom().len(),
    {
        proof {
            use_type_invariant(self);
            lemma_pairs_len(entries_model(self.entries@));
        }
        self.entries.len()
    }
}

proof fn lemma_pairs_len(s: Seq<(Seq<char>, DiagnosticLevel)>)
    requires
        distinct_keys(s),
    ensures
        pairs_to_map(s).dom().finite(),
        pairs_to_map(s).dom().len() == s.len(),
    decreases s.len(),
{
    if s.len() > 0 {
        let sp = s.drop_last();
        assert(distinct_keys(sp)) by {
            assert forall|i: int, j: int| 0 <= i < j < sp.len() implies (#[trigger] sp[i]).0 != (#[trigger] sp[j]).0 by {
                assert(sp[i] == s[i] && sp[j] == s[j]);
            }
        }
        lemma_pairs_len(sp);
        lemma_pairs_lookup(sp, s.last().0);
        assert forall|i: int| 0 <= i < sp.len() implies (#[trigger] sp[i]).0 != s.last().0 by {
            assert(sp[i] == s[i]);
            assert(s[i].0 != s[s.len() - 1].0);
        }
    }
}

impl Clone for RuleMap {
    fn clone(&self) -> (r: Self)
        ensures
            r.spec_map() == self.spec_map(),
    {
        proof { use_type_invariant(self); }
        let mut entries: Vec<(String, DiagnosticLevel)> = Vec::new();
        for i in 0..self.entries.len()
            invariant
                distinct_keys(entries_model(self.entries@)),
                entries_model(entries@) == entries_model(self.entries@).take(i as int),
        {
            let key = self.entries[i].0.clone();
            let ghost before = entries@;
            entries.push((key, self.entries[i].1));
            proof {
                assert(entries_model(entries@) =~= entries_model(before).push(entries_model(self.entries@)[i as int]));
                assert(entries_model(self.entries@).take(i + 1) =~= entries_model(self.entries@).take(i as int).push(entries_model(self.entries@)[i as int]));
            }
        }
        proof {
            assert(entries_model(self.entries@).take(self.entries@.len() as int) =~= entries_model(self.entries@));
        }
        RuleMap { entries }
    }
}

/// The linter's settings.
#[derive(Debug, Clone)]
pub struct Config {
    pub rules: RuleMap,
    pub max_expects: usize,
    pub max_nested_mod: usize,
    pub nextest: bool,
    pub deny_warnings: bool,
}

/// The rule levels a fresh configuration starts with.
pub open spec fn default_rule_levels() -> Map<Seq<char>, DiagnosticLevel> {
    Map::<Seq<char>, DiagnosticLevel>::empty()
        .insert("assertion-roulette"@, DiagnosticLevel::Warn)
        .insert("sleepy-test"@, DiagnosticLevel::Forbid)
        .insert("test-branching"@, DiagnosticLevel::Warn)
        .insert("async-blocking"@, DiagnosticLevel::Warn)
        .insert("unnecessary-clone"@, DiagnosticLevel::Warn)
        .insert("deep-wrapper"@, DiagnosticLevel::Warn)
        .insert("missing-drop-guard"@, DiagnosticLevel::Warn)
        .insert("dead-test-helper"@, DiagnosticLevel::Warn)
        .insert("nextest-compatibility"@, DiagnosticLevel::Warn)
        .insert("string-literal-corpus"@, DiagnosticLevel::Warn)
        .insert("fs-io-in-test"@, DiagnosticLevel::Warn)
}

impl Config {
    /// The settings of a fresh configuration: the default rule levels, at most 5 assertions per
    /// test, test modules nested at most 3 deep, no nextest checks, warnings not denied.
    pub open spec fn is_default(self) -> bool {
        &&& self.rules.spec_map() == default_rule_levels()
        &&& self.max_expects == 5
        &&& self.max_nested_mod == 3
        &&& !self.nextest
        &&& !self.deny_warnings
    }

    /// The level of a rule: its configured level, or `default` when it has none.
    pub open spec fn spec_rule_level(self, rule_id: Seq<char>, default: DiagnosticLevel) -> DiagnosticLevel {
        if self.rules.spec_map().dom().contains(rule_id) {
            self.rules.spec_map()[rule_id]
        } else {
            default
        }
    }

    /// A rule is enabled unless it is configured to `allow`.
    pub open spec fn spec_rule_enabled(self, rule_id: Seq<char>) -> bool {
        !(self.rules.spec_map().dom().contains(rule_id) && self.rules.spec_map()[rule_id] == DiagnosticLevel::Allow)
    }

    pub fn rule_level(&self, rule_id: &str, default: DiagnosticLevel) -> (r: DiagnosticLevel)
        ensures
            r == self.spec_rule_level(rule_id@, default),
    {
        match self.rules.get(rule_id) {
            Some(l) => *l,
            None => default,
        }
    }

    pub fn rule_enabled(&self, rule_id: &str) -> (r: bool)
        ensures
            r == self.spec_rule_enabled(rule_id@),
    {
        match self.rules.get(rule_id) {
            Some(DiagnosticLevel::Allow) => false,
            _ => true,
        }
    }
}

impl Default for Config {
    fn default() -> (r: Self)
        ensures
            r.is_default(),
    {
        let mut rules = RuleMap::new();
        rules.insert(String::from_str("assertion-roulette"), DiagnosticLevel::Warn);
        rules.insert(String::from_str("sleepy-test"), DiagnosticLevel::Forbid);
        rules.insert(String::from_str("test-branching"), DiagnosticLevel::Warn);
        rules.insert(String::from_str("async-blocking"), DiagnosticLevel::Warn);
        rules.insert(String::from_str("unnecessary-clone"), DiagnosticLevel::Warn);
        rules.insert(String::from_str("deep-wrapper"), DiagnosticLevel::Warn);
        rules.insert(String::from_str("missing-drop-guard"), DiagnosticLevel::Warn);
        rules.insert(String::from_str("dead-test-helper"), DiagnosticLevel::Warn);
        rules.insert(String::from_str("nextest-compatibility"), DiagnosticLevel::Warn);
        rules.insert(String::from_str("string-literal-corpus"), DiagnosticLevel::Warn);
        rules.insert(String::from_str("fs-io-in-test"), DiagnosticLevel::Warn);
        Config { rules, max_expects: 5, max_nested_mod: 3, nextest: false, deny_warnings: false }
    }
}

/// The configuration that applies: the package's own lint table wins over the workspace's,
/// and with neither the defaults apply.
pub fn load(package: Option<Config>, workspace: Option<Config>) -> (r: Config)
    ensures
        match package {
            Some(c) => r == c,
            None => match workspace {
                Some(c) => r == c,
                None => r.is_default(),
            },
        },
{
    match package {
        Some(c) => c,
        None => match workspace {
            Some(c) => c,
            None => Config::default(),
        },
    }
}

/// A rule is enabled exactly when its level, with `warn` as the fallback, is not `allow`.
pub proof fn law_enabled_iff_not_allowed(c: Config, rule_id: Seq<char>)
    ensures
        c.spec_rule_enabled(rule_id) == (c.spec_rule_level(rule_id, DiagnosticLevel::Warn) != DiagnosticLevel::Allow),
{
}

/// A level set by `insert` is the level `rule_level` then reports, whatever the fallback.
pub proof fn law_insert_then_level(c: Config, m: RuleMap, key: Seq<char>, level: DiagnosticLevel, default: DiagnosticLevel)
    requires
        m.spec_map() == c.rules.spec_map().insert(key, level),
    ensures
        (Config { rules: m, ..c }).spec_rule_level(key, default) == level,
{
}

} // verus!
