//! Rules: glob patterns over target paths that set the deploy type and mode
//! of the entries they match. Later matching rules override earlier ones.

use indexmap::IndexMap;
use vstd::prelude::*;
use crate::error::{ConfigError, PathRole};
use crate::mode::{DeployMode, DeployType};
use crate::paths::{join_path, path_join, reject_brace_expansion, validate_relative, is_valid_relative, has_braces};
use crate::targets::ResolvedPortal;
use crate::text::{chars_of, string_of, strip_dot_slash, strip_prefix_or_self, text_eq};

verus! {

/// Whether `glob` accepts `pattern` (`glob::Pattern::new` returns `Ok`).
pub uninterp spec fn spec_glob_valid(pattern: Seq<char>) -> bool;

/// Whether the glob `pattern` matches the path `path` under the match
/// options of `glob::MatchOptions`: `case_sensitive`,
/// `require_literal_separator` and `require_literal_leading_dot`.
pub uninterp spec fn spec_glob_matches_with(
    pattern: Seq<char>,
    path: Seq<char>,
    case_sensitive: bool,
    require_literal_separator: bool,
    require_literal_leading_dot: bool,
) -> bool;

/// Whether the glob `pattern` matches the path `path` as portals and rules
/// match: case-sensitively, with `/` matched only by a literal `/`, and
/// with leading dots matched by wildcards.
pub open spec fn spec_glob_matches(pattern: Seq<char>, path: Seq<char>) -> bool {
    spec_glob_matches_with(pattern, path, true, true, false)
}

/// Calls `glob::Pattern::new` and reports whether it accepted `pattern`.
/// The contract names the verdict and claims nothing else of it.
#[verifier::external_body]
pub(crate) fn glob_pattern_is_valid(pattern: &str) -> (res: bool)
    ensures
        res == spec_glob_valid(pattern@),
{
    glob::Pattern::new(pattern).is_ok()
}

/// Compiles `pattern` with `glob::Pattern::new` and calls
/// `Pattern::matches_path_with` on `path` with the given match options.
/// The contract names the verdict, a function of the two texts and the
/// options alone.
#[verifier::external_body]
fn glob_matches_with(
    pattern: &str,
    path: &str,
    case_sensitive: bool,
    require_literal_separator: bool,
    require_literal_leading_dot: bool,
) -> (res: bool)
    requires
        spec_glob_valid(pattern@),
    ensures
        res == spec_glob_matches_with(
            pattern@,
            path@,
            case_sensitive,
            require_literal_separator,
            require_literal_leading_dot,
        ),
{
    let options = glob::MatchOptions { case_sensitive, require_literal_separator, require_literal_leading_dot };
    glob::Pattern::new(pattern).map_or(false, |p| p.matches_path_with(std::path::Path::new(path), options))
}

/// Whether the valid glob `pattern` matches `path` as portals and rules
/// match.
pub(crate) fn glob_matches(pattern: &str, path: &str) -> (res: bool)
    requires
        spec_glob_valid(pattern@),
    ensures
        res == spec_glob_matches(pattern@, path@),
{
    glob_matches_with(pattern, path, true, true, false)
}

#[verifier::external_type_specification]
#[verifier::external_body]
#[verifier::reject_recursive_types(K)]
#[verifier::reject_recursive_types(V)]
#[verifier::reject_recursive_types(S)]
pub struct ExIndexMap<K, V, S>(IndexMap<K, V, S>);

/// The entries of a rule table, in order, as (pattern, rule).
pub uninterp spec fn table_entries(m: IndexMap<String, RuleConfig>) -> Seq<(Seq<char>, RuleConfig)>;

/// Calls `IndexMap::new`: a table without entries.
#[verifier::external_body]
fn table_new() -> (res: IndexMap<String, RuleConfig>)
    ensures
        table_entries(res) == Seq::<(Seq<char>, RuleConfig)>::empty(),
{
    IndexMap::new()
}

/// Calls `IndexMap::insert`. As its documentation says, when the table
/// holds the key already, the key keeps its place and its rule is
/// replaced; otherwise the entry goes last.
#[verifier::external_body]
fn table_insert(m: &mut IndexMap<String, RuleConfig>, key: String, rule: RuleConfig)
    ensures
        table_entries(*final(m)) == if key_pos(table_entries(*old(m)), key@) >= 0 {
            table_entries(*old(m)).update(key_pos(table_entries(*old(m)), key@), (key@, rule))
        } else {
            table_entries(*old(m)).push((key@, rule))
        },
{
    m.insert(key, rule);
}

/// Calls `IndexMap::len`: the number of entries.
#[verifier::external_body]
fn table_len(m: &IndexMap<String, RuleConfig>) -> (res: usize)
    ensures
        res == table_entries(*m).len(),
{
    m.len()
}

/// Calls `IndexMap::get_index`, copying out the `i`-th entry, `None` past
/// the end.
#[verifier::external_body]
fn table_entry(m: &IndexMap<String, RuleConfig>, i: usize) -> (res: Option<(String, RuleConfig)>)
    ensures
        res is Some <==> i < table_entries(*m).len(),
        res matches Some((k, r)) ==> k@ == table_entries(*m)[i as int].0 && r == table_entries(*m)[i as int].1,
{
    m.get_index(i).map(|(k, r)| (k.clone(), *r))
}

/// The properties a rule may set.
#[derive(Debug, Clone, Copy, PartialEq, Eq, Structural)]
pub struct RuleConfig {
    pub deploy_type: Option<DeployType>,
    pub mode: Option<DeployMode>,
}

/// Why a rule table was refused.
#[derive(Debug, Clone, Copy, PartialEq, Eq, Structural)]
pub enum RuleConfigError {
    /// `mode` was given together with `type = "symlink"`.
    ModeWithSymlink,
}

impl RuleConfig {
    /// A rule with the given properties; `mode` cannot go with `symlink`.
    pub fn new(deploy_type: Option<DeployType>, mode: Option<DeployMode>) -> (res: Result<RuleConfig, RuleConfigError>)
        ensures
            res is Err <==> (mode is Some && deploy_type == Some(DeployType::Symlink)),
            res matches Ok(r) ==> r.deploy_type == deploy_type && r.mode == mode,
    {
        if mode.is_some() && deploy_type == Some(DeployType::Symlink) {
            return Err(RuleConfigError::ModeWithSymlink);
        }
        Ok(RuleConfig { deploy_type, mode })
    }
}

/// A rule whose pattern passed validation, with any leading `./` removed.
#[derive(Debug, Clone, PartialEq, Eq)]
pub struct CompiledRule {
    pub pattern: String,
    pub rule: RuleConfig,
}

/// A resolved entry decorated by the rules: where it deploys and how.
#[derive(Debug, Clone, PartialEq, Eq)]
pub struct DeploymentEntry {
    pub source_path: String,
    pub target_path: String,
    pub deploy_type: DeployType,
    pub mode: Option<DeployMode>,
}

/// Whether every compiled rule holds a pattern that `glob` accepts.
pub open spec fn rules_valid(rules: Seq<CompiledRule>) -> bool {
    forall|i: int| 0 <= i < rules.len() ==> spec_glob_valid(#[trigger] rules[i].pattern@)
}

/// The deploy type set by the last rule that matches `target` and sets one.
pub open spec fn last_type(rules: Seq<CompiledRule>, target: Seq<char>) -> Option<DeployType>
    decreases rules.len(),
{
    if rules.len() == 0 {
        None
    } else if spec_glob_matches(rules.last().pattern@, target) && rules.last().rule.deploy_type is Some {
        rules.last().rule.deploy_type
    } else {
        last_type(rules.drop_last(), target)
    }
}

/// The mode set by the last rule that matches `target` and sets one.
pub open spec fn last_mode(rules: Seq<CompiledRule>, target: Seq<char>) -> Option<DeployMode>
    decreases rules.len(),
{
    if rules.len() == 0 {
        None
    } else if spec_glob_matches(rules.last().pattern@, target) && rules.last().rule.mode is Some {
        rules.last().rule.mode
    } else {
        last_mode(rules.drop_last(), target)
    }
}

/// The effective deploy type: the last matching rule's, else `symlink`.
pub open spec fn effective_type(rules: Seq<CompiledRule>, target: Seq<char>) -> DeployType {
    match last_type(rules, target) {
        Some(t) => t,
        None => DeployType::Symlink,
    }
}

/// The effective mode: the last matching rule's, dropped for symlinks.
pub open spec fn effective_mode(rules: Seq<CompiledRule>, target: Seq<char>) -> Option<DeployMode> {
    if effective_type(rules, target) == DeployType::Symlink {
        None
    } else {
        last_mode(rules, target)
    }
}

/// The position of the last rule with pattern `key` in `r`, or -1.
pub open spec fn key_pos(r: Seq<(Seq<char>, RuleConfig)>, key: Seq<char>) -> int
    decreases r.len(),
{
    if r.len() == 0 {
        -1
    } else if r.last().0 == key {
        r.len() - 1
    } else {
        key_pos(r.drop_last(), key)
    }
}

/// The rule table that `rules` compile to, as (pattern, rule) pairs in
/// order: each pattern loses a leading `./`, and a rule whose pattern is
/// already in the table replaces the earlier rule in its place, as
/// inserting into an ordered map keyed by the compiled pattern does.
pub open spec fn merged_rules(rules: Seq<(String, RuleConfig)>) -> Seq<(Seq<char>, RuleConfig)>
    decreases rules.len(),
{
    if rules.len() == 0 {
        Seq::empty()
    } else {
        let r = merged_rules(rules.drop_last());
        let key = strip_prefix_or_self(rules.last().0@, seq!['.', '/']);
        let at = key_pos(r, key);
        if at >= 0 {
            r.update(at, (key, rules.last().1))
        } else {
            r.push((key, rules.last().1))
        }
    }
}

/// The (pattern, rule) pairs of compiled rules.
pub open spec fn compiled_view(c: Seq<CompiledRule>) -> Seq<(Seq<char>, RuleConfig)> {
    c.map_values(|r: CompiledRule| (r.pattern@, r.rule))
}

proof fn lemma_key_pos_bounds(r: Seq<(Seq<char>, RuleConfig)>, key: Seq<char>)
    ensures
        -1 <= key_pos(r, key) < r.len(),
        key_pos(r, key) >= 0 ==> r[key_pos(r, key)].0 == key,
    decreases r.len(),
{
    if r.len() > 0 {
        lemma_key_pos_bounds(r.drop_last(), key);
    }
}

/// Whether the pattern of each of `rules` is relative, free of brace
/// expansion, and accepted by `glob` once a leading `./` is removed.
pub open spec fn rule_patterns_ok(rules: Seq<(String, RuleConfig)>) -> bool {
    forall|i: int|
        0 <= i < rules.len() ==> {
            &&& is_valid_relative(#[trigger] rules[i].0@)
            &&& !has_braces(rules[i].0@)
            &&& spec_glob_valid(strip_prefix_or_self(rules[i].0@, seq!['.', '/']))
        }
}

/// Validates each rule pattern (relative, no brace expansion, accepted by
/// `glob` once a leading `./` is removed) and builds the rule table: rules
/// in order, where a later rule with the same compiled pattern replaces the
/// earlier one in its place.
pub fn compile_rules(rules: &[(String, RuleConfig)]) -> (res: Result<Vec<CompiledRule>, ConfigError>)
    ensures
        res matches Ok(c) ==> rules_valid(c@) && compiled_view(c@) == merged_rules(rules@),
        res is Ok <==> rule_patterns_ok(rules@),
        res matches Err(e) ==> exists|i: int|
            0 <= i < rules@.len() && {
                let p = #[trigger] rules@[i].0@;
                if !is_valid_relative(p) {
                    e matches ConfigError::InvalidPath { role, value } && role == PathRole::Rule
                        && value@ == p
                } else if has_braces(p) {
                    e matches ConfigError::BraceExpansion { role, value } && role == PathRole::Rule
                        && value@ == p
                } else {
                    e matches ConfigError::InvalidPattern { pattern } && pattern@ == p
                        && !spec_glob_valid(strip_prefix_or_self(p, seq!['.', '/']))
                }
            },
{
    let mut table = table_new();
    let mut i: usize = 0;
    proof {
        assert(table_entries(table) =~= merged_rules(rules@.take(0)));
    }
    while i < rules.len()
        invariant
            i <= rules@.len(),
            table_entries(table) == merged_rules(rules@.take(i as int)),
            forall|k: int| 0 <= k < table_entries(table).len() ==> spec_glob_valid(#[trigger] table_entries(table)[k].0),
            rule_patterns_ok(rules@.take(i as int)),
        decreases rules.len() - i,
    {
        let pattern = &rules[i].0;
        let rule = rules[i].1;
        proof {
            assert(rules@.take(i + 1).drop_last() =~= rules@.take(i as int));
            assert(rules@.take(i + 1).last() == rules@[i as int]);
        }
        match validate_relative(pattern.as_str(), PathRole::Rule) {
            Ok(()) => {},
            Err(e) => {
                return Err(e);
            },
        }
        match reject_brace_expansion(pattern.as_str(), PathRole::Rule) {
            Ok(()) => {},
            Err(e) => {
                return Err(e);
            },
        }
        let stripped = string_of(&strip_dot_slash(&chars_of(pattern.as_str())));
        if !glob_pattern_is_valid(stripped.as_str()) {
            return Err(ConfigError::InvalidPattern { pattern: pattern.clone() });
        }
        let ghost before = table_entries(table);
        let ghost key = stripped@;
        table_insert(&mut table, stripped, rule);
        proof {
            lemma_key_pos_bounds(before, key);
            assert forall|k: int| 0 <= k < table_entries(table).len() implies spec_glob_valid(
                #[trigger] table_entries(table)[k].0,
            ) by {
                if k < before.len() && k != key_pos(before, key) {
                    assert(table_entries(table)[k] == before[k]);
                }
            }
            assert forall|k: int| 0 <= k < i + 1 implies {
                &&& is_valid_relative(#[trigger] rules@.take(i + 1)[k].0@)
                &&& !has_braces(rules@.take(i + 1)[k].0@)
                &&& spec_glob_valid(strip_prefix_or_self(rules@.take(i + 1)[k].0@, seq!['.', '/']))
            } by {
                if k < i {
                    assert(rules@.take(i + 1)[k] == rules@.take(i as int)[k]);
                }
            }
        }
        i += 1;
    }
    proof {
        assert(rules@.take(rules@.len() as int) =~= rules@);
    }
    let n = table_len(&table);
    let mut compiled: Vec<CompiledRule> = Vec::new();
    let mut j: usize = 0;
    while j < n
        invariant
            n == table_entries(table).len(),
            j <= n,
            compiled_view(compiled@) == table_entries(table).take(j as int),
            forall|k: int| 0 <= k < table_entries(table).len() ==> spec_glob_valid(#[trigger] table_entries(table)[k].0),
            rules_valid(compiled@),
        decreases n - j,
    {
        match table_entry(&table, j) {
            Some((pattern, rule)) => {
                let ghost before = compiled@;
                compiled.push(CompiledRule { pattern, rule });
                proof {
                    assert(compiled_view(compiled@) =~= compiled_view(before).push(table_entries(table)[j as int]));
                    assert(table_entries(table).take(j + 1) =~= table_entries(table).take(j as int).push(
                        table_entries(table)[j as int],
                    ));
                    assert forall|k: int| 0 <= k < compiled@.len() implies spec_glob_valid(#[trigger] compiled@[k].pattern@) by {
                        if k < before.len() {
                            assert(compiled@[k] == before[k]);
                            assert(compiled_view(before)[k] == (before[k].pattern@, before[k].rule));
                        }
                    }
                }
            },
            None => {},
        }
        j += 1;
    }
    proof {
        assert(table_entries(table).take(n as int) =~= table_entries(table));
    }
    Ok(compiled)
}

/// Decorates a resolved entry with the rules: the last matching rule that
/// sets a type or a mode wins for that property; the type defaults to
/// `symlink`, and a symlink keeps no mode. The flag tells whether a matched
/// mode was dropped because the effective type is `symlink`.
pub fn apply_rules(entry: &ResolvedPortal, rules: &[CompiledRule], target_root: &str) -> (res: (DeploymentEntry, bool))
    requires
        rules_valid(rules@),
    ensures
        res.0.source_path@ == entry.source@,
        res.0.target_path@ == path_join(target_root@, entry.target@),
        res.0.deploy_type == effective_type(rules@, entry.target@),
        res.0.mode == effective_mode(rules@, entry.target@),
        res.1 == (effective_type(rules@, entry.target@) == DeployType::Symlink
            && last_mode(rules@, entry.target@) is Some),
{
    let mut deploy_type: Option<DeployType> = None;
    let mut mode: Option<DeployMode> = None;
    let mut i: usize = 0;
    proof {
        assert(rules@.take(0) =~= Seq::<CompiledRule>::empty());
    }
    while i < rules.len()
        invariant
            rules_valid(rules@),
            i <= rules@.len(),
            deploy_type == last_type(rules@.take(i as int), entry.target@),
            mode == last_mode(rules@.take(i as int), entry.target@),
        decreases rules.len() - i,
    {
        let rule = &rules[i];
        proof {
            assert(spec_glob_valid(rules@[i as int].pattern@));
        }
        if glob_matches(rule.pattern.as_str(), entry.target.as_str()) {
            if rule.rule.deploy_type.is_some() {
                deploy_type = rule.rule.deploy_type;
            }
            if rule.rule.mode.is_some() {
                mode = rule.rule.mode;
            }
        }
        proof {
            assert(rules@.take(i + 1).drop_last() =~= rules@.take(i as int));
            assert(rules@.take(i + 1).last() == rules@[i as int]);
        }
        i += 1;
    }
    proof {
        assert(rules@.take(rules@.len() as int) =~= rules@);
    }
    let effective = match deploy_type {
        Some(t) => t,
        None => DeployType::Symlink,
    };
    let dropped = effective == DeployType::Symlink && mode.is_some();
    let final_mode = if effective == DeployType::Symlink { None } else { mode };
    let out = DeploymentEntry {
        source_path: entry.source.clone(),
        target_path: join_path(target_root, entry.target.as_str()),
        deploy_type: effective,
        mode: final_mode,
    };
    (out, dropped)
}

/// Later rules win: appending a rule that matches `target` and sets a
/// type or a mode makes that type or mode the entry's (a mode only when the
/// entry does not deploy as a symlink), and appending a rule that does not
/// match changes nothing.
pub proof fn lemma_later_matching_rule_wins(rules: Seq<CompiledRule>, r: CompiledRule, target: Seq<char>)
    ensures
        spec_glob_matches(r.pattern@, target) && r.rule.deploy_type is Some ==> effective_type(rules.push(r), target)
            == r.rule.deploy_type->0,
        spec_glob_matches(r.pattern@, target) && r.rule.mode is Some && effective_type(rules.push(r), target)
            != DeployType::Symlink ==> effective_mode(rules.push(r), target) == r.rule.mode,
        !spec_glob_matches(r.pattern@, target) ==> effective_type(rules.push(r), target) == effective_type(rules, target)
            && effective_mode(rules.push(r), target) == effective_mode(rules, target),
{
    assert(rules.push(r).drop_last() =~= rules);
}

/// With no matching rule that sets a type, an entry deploys as a symlink
/// and keeps no mode, whatever modes matching rules set.
pub proof fn lemma_default_is_symlink_without_mode(rules: Seq<CompiledRule>, target: Seq<char>)
    requires
        forall|i: int|
            0 <= i < rules.len() && spec_glob_matches(#[trigger] rules[i].pattern@, target) ==> rules[i].rule.deploy_type
                is None,
    ensures
        effective_type(rules, target) == DeployType::Symlink,
        effective_mode(rules, target) is None,
    decreases rules.len(),
{
    if rules.len() > 0 {
        let init = rules.drop_last();
        assert forall|i: int|
            0 <= i < init.len() && spec_glob_matches(#[trigger] init[i].pattern@, target) implies init[i].rule.deploy_type
                is None by {
            assert(init[i] == rules[i]);
        }
        lemma_default_is_symlink_without_mode(init, target);
        assert(rules.last() == rules[rules.len() - 1]);
    }
}

/// The mode an entry gets is the mode of the last rule that matches it and
/// sets one: no later matching rule sets a mode.
pub proof fn lemma_mode_comes_from_last_matching_rule(rules: Seq<CompiledRule>, target: Seq<char>)
    ensures
        effective_mode(rules, target) matches Some(m) ==> exists|i: int|
            0 <= i < rules.len() && spec_glob_matches(#[trigger] rules[i].pattern@, target) && rules[i].rule.mode
                == Some(m) && forall|j: int|
                i < j < rules.len() && spec_glob_matches(#[trigger] rules[j].pattern@, target) ==> rules[j].rule.mode
                    is None,
    decreases rules.len(),
{
    if effective_mode(rules, target) is Some {
        lemma_last_mode_source(rules, target);
    }
}

proof fn lemma_last_mode_source(rules: Seq<CompiledRule>, target: Seq<char>)
    requires
        last_mode(rules, target) is Some,
    ensures
        exists|i: int|
            0 <= i < rules.len() && spec_glob_matches(#[trigger] rules[i].pattern@, target) && rules[i].rule.mode
                == last_mode(rules, target) && forall|j: int|
                i < j < rules.len() && spec_glob_matches(#[trigger] rules[j].pattern@, target) ==> rules[j].rule.mode
                    is None,
    decreases rules.len(),
{
    let n = rules.len() - 1;
    if spec_glob_matches(rules.last().pattern@, target) && rules.last().rule.mode is Some {
        assert(rules[n] == rules.last());
    } else {
        let init = rules.drop_last();
        lemma_last_mode_source(init, target);
        let i = choose|i: int|
            0 <= i < init.len() && spec_glob_matches(#[trigger] init[i].pattern@, target) && init[i].rule.mode
                == last_mode(init, target) && forall|j: int|
                i < j < init.len() && spec_glob_matches(#[trigger] init[j].pattern@, target) ==> init[j].rule.mode
                    is None;
        assert(rules[i] == init[i]);
        assert forall|j: int|
            i < j < rules.len() && spec_glob_matches(#[trigger] rules[j].pattern@, target) implies rules[j].rule.mode
                is None by {
            if j < n {
                assert(rules[j] == init[j]);
            } else {
                assert(rules[j] == rules.last());
            }
        }
    }
}

} // verus!
