//! Configuration: which rules run, their thresholds, and what is excluded.

use vstd::prelude::*;
use crate::paths::{file_name, file_name_exec};
use crate::text::{chars_of, contains, contains_exec, seq_eq};
use crate::unicode::{lowercase, to_lowercase};

verus! {

/// Settings that apply to every rule.
pub struct GlobalConfig {
    pub exclude: Vec<String>,
}

/// One rule's settings. `thresholds` lists each threshold key with its value
/// when that value is an integer (`None` for a value of another type).
pub struct RuleConfig {
    pub enabled: bool,
    pub severity: Option<String>,
    pub thresholds: Vec<(String, Option<i64>)>,
    pub exclude_files: Vec<String>,
}

pub struct Config {
    pub global: GlobalConfig,
    pub rules: Vec<(String, RuleConfig)>,
}

/// No two entries share a key, as in the maps that configuration files hold.
pub open spec fn keys_distinct<V>(s: Seq<(String, V)>) -> bool {
    forall|i: int, j: int| 0 <= i < j < s.len() ==> (#[trigger] s[i]).0@ != (#[trigger] s[j]).0@
}

impl RuleConfig {
    /// Each threshold key occurs once.
    pub open spec fn wf(&self) -> bool {
        keys_distinct(self.thresholds@)
    }
}

impl Config {
    /// Each rule id has at most one entry, and each entry is well formed.
    pub open spec fn wf(&self) -> bool {
        &&& keys_distinct(self.rules@)
        &&& forall|k: int| 0 <= k < self.rules@.len() ==> (#[trigger] self.rules@[k]).1.wf()
    }
}

/// The value of threshold `key`: the first entry with that key, when it holds
/// an integer; otherwise `default`.
pub open spec fn threshold_value(ths: Seq<(String, Option<i64>)>, key: Seq<char>, default: i64) -> i64
    decreases ths.len(),
{
    if ths.len() == 0 {
        default
    } else if ths[0].0@ == key {
        match ths[0].1 {
            Some(v) => v,
            None => default,
        }
    } else {
        threshold_value(ths.drop_first(), key, default)
    }
}

/// A file is excluded from a rule when its lower-cased name contains one of
/// the lower-cased patterns.
pub open spec fn excludes_name(patterns: Seq<String>, path: Seq<char>) -> bool {
    let name = match file_name(path) {
        Some(n) => n,
        None => Seq::<char>::empty(),
    };
    exists|k: int|
        0 <= k < patterns.len() && contains(
            lowercase(name),
            lowercase(#[trigger] patterns[k]@),
        )
}

impl GlobalConfig {
    pub fn new() -> (r: GlobalConfig)
        ensures
            r.exclude@.len() == 0,
    {
        GlobalConfig { exclude: Vec::new() }
    }
}

impl Default for RuleConfig {
    fn default() -> (r: RuleConfig)
        ensures
            !r.enabled,
            r.severity is None,
            r.thresholds@.len() == 0,
            r.exclude_files@.len() == 0,
            r.wf(),
    {
        RuleConfig {
            enabled: false,
            severity: None,
            thresholds: Vec::new(),
            exclude_files: Vec::new(),
        }
    }
}

impl Default for Config {
    fn default() -> (r: Config)
        ensures
            r.global.exclude@.len() == 0,
            r.rules@.len() == 0,
            r.wf(),
    {
        Config { global: GlobalConfig::new(), rules: Vec::new() }
    }
}

impl RuleConfig {
    pub fn is_enabled(&self) -> (r: bool)
        ensures
            r == self.enabled,
    {
        self.enabled
    }

    /// Whether the file is excluded from this rule (case-insensitive match of a
    /// pattern inside the file name).
    pub fn excludes_file(&self, file: &str) -> (r: bool)
        ensures
            r == excludes_name(self.exclude_files@, file@),
    {
        let path = chars_of(file);
        let name = match file_name_exec(&path) {
            Some(n) => n,
            None => Vec::new(),
        };
        let lname = to_lowercase(&name);
        let mut k: usize = 0;
        while k < self.exclude_files.len()
            invariant
                k <= self.exclude_files@.len(),
                lname@ == lowercase(
                    match file_name(file@) {
                        Some(n) => n,
                        None => Seq::<char>::empty(),
                    },
                ),
                forall|m: int|
                    0 <= m < k ==> !contains(lname@, lowercase(#[trigger] self.exclude_files@[m]@)),
            decreases self.exclude_files@.len() - k,
        {
            let pat = chars_of(self.exclude_files[k].as_str());
            let lpat = to_lowercase(&pat);
            if contains_exec(&lname, &lpat) {
                return true;
            }
            k += 1;
        }
        false
    }

    /// Threshold `key` if it is set to an integer, else `default`.
    pub fn threshold_i64(&self, key: &str, default: i64) -> (r: i64)
        ensures
            r == threshold_value(self.thresholds@, key@, default),
    {
        let kc = chars_of(key);
        let mut k: usize = 0;
        assert(self.thresholds@.skip(0) =~= self.thresholds@);
        while k < self.thresholds.len()
            invariant
                k <= self.thresholds@.len(),
                kc@ == key@,
                threshold_value(self.thresholds@.skip(k as int), key@, default) == threshold_value(
                    self.thresholds@,
                    key@,
                    default,
                ),
            decreases self.thresholds@.len() - k,
        {
            let name = chars_of(self.thresholds[k].0.as_str());
            assert(self.thresholds@.skip(k as int)[0] == self.thresholds@[k as int]);
            if seq_eq(&name, &kc) {
                return match self.thresholds[k].1 {
                    Some(v) => v,
                    None => default,
                };
            }
            assert(self.thresholds@.skip(k as int).drop_first() =~= self.thresholds@.skip(k + 1));
            k += 1;
        }
        default
    }
}

/// The settings of rule `id`: the first entry with that name.
pub open spec fn rule_entry(rules: Seq<(String, RuleConfig)>, id: Seq<char>) -> Option<int>
    decreases rules.len(),
{
    if rules.len() == 0 {
        None
    } else if rules.last().0@ == id && rule_entry(rules.drop_last(), id) is None {
        Some(rules.len() - 1)
    } else {
        rule_entry(rules.drop_last(), id)
    }
}

/// A key that no threshold names reads as the default.
pub proof fn lemma_threshold_absent(ths: Seq<(String, Option<i64>)>, key: Seq<char>, default: i64)
    requires
        forall|k: int| 0 <= k < ths.len() ==> (#[trigger] ths[k]).0@ != key,
    ensures
        threshold_value(ths, key, default) == default,
    decreases ths.len(),
{
    if ths.len() > 0 {
        assert(ths[0].0@ != key);
        assert forall|k: int| 0 <= k < ths.drop_first().len() implies (#[trigger] ths.drop_first()[k]).0@
            != key by {
            assert(ths.drop_first()[k] == ths[k + 1]);
        }
        lemma_threshold_absent(ths.drop_first(), key, default);
    }
}

/// With distinct keys, a threshold reads the one entry with its key.
pub proof fn lemma_threshold_unique(ths: Seq<(String, Option<i64>)>, key: Seq<char>, default: i64, k: int)
    requires
        keys_distinct(ths),
        0 <= k < ths.len(),
        ths[k].0@ == key,
    ensures
        threshold_value(ths, key, default) == match ths[k].1 {
            Some(v) => v,
            None => default,
        },
    decreases k,
{
    if k > 0 {
        assert(ths[0].0@ != ths[k].0@);
        let d = ths.drop_first();
        assert(keys_distinct(d)) by {
            assert forall|i: int, j: int| 0 <= i < j < d.len() implies (#[trigger] d[i]).0@ != (
            #[trigger] d[j]).0@ by {
                assert(d[i] == ths[i + 1] && d[j] == ths[j + 1]);
            }
        }
        assert(d[k - 1] == ths[k]);
        lemma_threshold_unique(d, key, default, k - 1);
    }
}

/// With distinct keys, the entry found for an id is the one entry with it.
pub proof fn lemma_rule_entry_unique(rules: Seq<(String, RuleConfig)>, id: Seq<char>, k: int)
    requires
        keys_distinct(rules),
        0 <= k < rules.len(),
        rules[k].0@ == id,
    ensures
        rule_entry(rules, id) == Some(k),
    decreases rules.len(),
{
    if k < rules.len() - 1 {
        let d = rules.drop_last();
        assert(keys_distinct(d)) by {
            assert forall|i: int, j: int| 0 <= i < j < d.len() implies (#[trigger] d[i]).0@ != (
            #[trigger] d[j]).0@ by {
                assert(d[i] == rules[i] && d[j] == rules[j]);
            }
        }
        assert(d[k] == rules[k]);
        lemma_rule_entry_unique(d, id, k);
        assert(rules[k].0@ != rules[rules.len() - 1].0@);
    } else {
        lemma_rule_entry_absent(rules.drop_last(), id, rules);
    }
}

proof fn lemma_rule_entry_absent(d: Seq<(String, RuleConfig)>, id: Seq<char>, rules: Seq<(String, RuleConfig)>)
    requires
        keys_distinct(rules),
        rules.len() > 0,
        d == rules.drop_last(),
        rules.last().0@ == id,
    ensures
        rule_entry(d, id) is None,
    decreases d.len(),
{
    if d.len() > 0 {
        assert(d.last() == rules[d.len() - 1]);
        assert(rules[d.len() - 1].0@ != rules[rules.len() - 1].0@);
        let r2 = rules.drop_last().drop_last().push(rules.last());
        assert(keys_distinct(r2)) by {
            assert forall|i: int, j: int| 0 <= i < j < r2.len() implies (#[trigger] r2[i]).0@ != (
            #[trigger] r2[j]).0@ by {
                if j == r2.len() - 1 {
                    assert(r2[i] == rules[i]);
                    assert(r2[j] == rules[rules.len() - 1]);
                } else {
                    assert(r2[i] == rules[i] && r2[j] == rules[j]);
                }
            }
        }
        assert(r2.drop_last() =~= d.drop_last());
        lemma_rule_entry_absent(d.drop_last(), id, r2);
    }
}

impl Config {
    /// Index of the settings of rule `id`, if the configuration has any.
    pub fn rule_index(&self, id: &str) -> (r: Option<usize>)
        ensures
            match r {
                Some(j) => rule_entry(self.rules@, id@) == Some(j as int),
                None => rule_entry(self.rules@, id@) is None,
            },
            r matches Some(j) ==> j < self.rules@.len(),
    {
        let kc = chars_of(id);
        let mut k: usize = 0;
        while k < self.rules.len()
            invariant
                k <= self.rules@.len(),
                kc@ == id@,
                rule_entry(self.rules@.take(k as int), id@) is None,
            decreases self.rules@.len() - k,
        {
            assert(self.rules@.take(k + 1).drop_last() =~= self.rules@.take(k as int));
            let name = chars_of(self.rules[k].0.as_str());
            if seq_eq(&name, &kc) {
                proof {
                    lemma_rule_entry_prefix(self.rules@, id@, k as int);
                }
                return Some(k);
            }
            k += 1;
        }
        assert(self.rules@.take(self.rules@.len() as int) =~= self.rules@);
        None
    }
}

proof fn lemma_rule_entry_prefix(rules: Seq<(String, RuleConfig)>, id: Seq<char>, i: int)
    requires
        0 <= i < rules.len(),
        rules[i].0@ == id,
        rule_entry(rules.take(i), id) is None,
    ensures
        rule_entry(rules, id) == Some(i),
    decreases rules.len() - i,
{
    if i == rules.len() - 1 {
        assert(rules.drop_last() =~= rules.take(i));
    } else {
        assert(rules.drop_last().take(i) =~= rules.take(i));
        lemma_rule_entry_prefix(rules.drop_last(), id, i);
    }
}

} // verus!
