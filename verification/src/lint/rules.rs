//! The closed set of rules and what is shared between them.

use vstd::prelude::*;

use indexmap::IndexMap;

use crate::lint::report::{aggregate, aggregated, report_entries, results_view, ResultView};
use crate::lint::rules::cache::{CommonCache, RuleCache};
use crate::lint::{findings_view, FindingView, LintItem, LintLevel, LintResult};
use crate::schema::spec::Spec;

pub mod cache;
pub mod needs_explicit_sources;
pub mod needs_metric_description;
pub mod needs_source_description;
pub mod no_duplicate_metrics;
pub mod no_duplicate_pageviews;
pub mod no_duplicate_sources;
pub mod uses_name_case;

verus! {

/// Every rule that the engine knows, in the order in which rules run.
#[derive(Debug, Clone, Copy, PartialEq, Eq, Structural)]
pub enum Rules {
    NeedsExplicitSources,
    NeedsMetricDescription,
    NeedsSourceDescription,
    NoDuplicateMetrics,
    NoDuplicatePageviews,
    NoDuplicateSources,
    UsesNameCase,
}

/// What every rule offers to the engine.
pub trait Rule: Sized {
    /// What the rule remembers of the plan.
    type Cache;

    /// The level at which the rule runs where no configuration sets one.
    spec fn default_level(&self) -> LintLevel;

    /// The kind of item that the rule is about in the first place.
    spec fn item(&self) -> LintItem;

    /// The names that the rule's cache holds.
    spec fn cached(cache: &Self::Cache) -> Seq<Seq<char>>;

    /// The names that the rule keeps of one file.
    spec fn kept(spec: &Spec) -> Seq<Seq<char>>;

    /// What the rule finds in a file, given the names that its own cache and
    /// the shared cache hold.
    spec fn findings(&self, cached: Seq<Seq<char>>, common: Seq<Seq<char>>, spec: &Spec) -> Seq<
        FindingView,
    >;

    /// The level at which the rule runs where no configuration sets one.
    fn level(&self) -> (out: LintLevel)
        ensures
            out == self.default_level(),
    ;

    /// The kind of item that the rule is about in the first place.
    fn ty(&self) -> (out: LintItem)
        ensures
            out == self.item(),
    ;

    /// Folds one file into the rule's cache.
    fn pre_compute(cache: &mut Self::Cache, spec: &Spec)
        ensures
            Self::cached(final(cache)) == Self::cached(old(cache)) + Self::kept(spec),
    ;

    /// Checks one file against the caches of the whole plan.
    fn run(&self, cache: RuleCache<Self::Cache>, spec: &Spec) -> (out: Vec<
        (LintItem, String, LintResult),
    >)
        ensures
            findings_view(out@) == self.findings(
                Self::cached(cache.rule),
                cache.common.names(),
                spec,
            ),
    ;
}

/// The findings of a table, entry after entry, where `each` gives those of
/// one entry.
pub open spec fn gathered<T>(entries: Seq<T>, each: spec_fn(T) -> Seq<FindingView>) -> Seq<
    FindingView,
>
    decreases entries.len(),
{
    if entries.len() == 0 {
        Seq::empty()
    } else {
        gathered(entries.drop_last(), each) + each(entries.last())
    }
}

/// The cache of a rule that remembers nothing.
pub type NoCache = ();

/// The names that `kept` takes from the files of a plan, file after file.
pub open spec fn folded(specs: Seq<&Spec>, kept: spec_fn(&Spec) -> Seq<Seq<char>>) -> Seq<
    Seq<char>,
>
    decreases specs.len(),
{
    if specs.len() == 0 {
        Seq::empty()
    } else {
        folded(specs.drop_last(), kept) + kept(specs.last())
    }
}

/// The names that a rule keeps of one file.
pub open spec fn kept_by(rule: Rules, spec: &Spec) -> Seq<Seq<char>> {
    match rule {
        Rules::NeedsExplicitSources => <needs_explicit_sources::Config as Rule>::kept(spec),
        Rules::NeedsMetricDescription => <needs_metric_description::Config as Rule>::kept(spec),
        Rules::NeedsSourceDescription => <needs_source_description::Config as Rule>::kept(spec),
        Rules::NoDuplicateMetrics => <no_duplicate_metrics::Config as Rule>::kept(spec),
        Rules::NoDuplicatePageviews => <no_duplicate_pageviews::Config as Rule>::kept(spec),
        Rules::NoDuplicateSources => <no_duplicate_sources::Config as Rule>::kept(spec),
        Rules::UsesNameCase => <uses_name_case::Config as Rule>::kept(spec),
    }
}

/// Everything that is computed over the whole plan before any file is
/// checked: the shared cache and one cache for each rule.
#[derive(Debug)]
pub struct RulesCache {
    pub _common: CommonCache,
    pub needs_explicit_sources: NoCache,
    pub needs_metric_description: NoCache,
    pub needs_source_description: NoCache,
    pub no_duplicate_metrics: no_duplicate_metrics::Cache,
    pub no_duplicate_pageviews: no_duplicate_pageviews::Cache,
    pub no_duplicate_sources: NoCache,
    pub uses_name_case: NoCache,
}

impl Default for RulesCache {
    /// The caches before any file is folded in.
    fn default() -> (out: Self)
        ensures
            out._common.names() == Seq::<Seq<char>>::empty(),
            forall|rule: Rules| #[trigger] out.cached_for(rule) == Seq::<Seq<char>>::empty(),
    {
        RulesCache {
            _common: CommonCache::new(),
            needs_explicit_sources: (),
            needs_metric_description: (),
            needs_source_description: (),
            no_duplicate_metrics: no_duplicate_metrics::Cache::new(),
            no_duplicate_pageviews: no_duplicate_pageviews::Cache::new(),
            no_duplicate_sources: (),
            uses_name_case: (),
        }
    }
}

impl RulesCache {
    /// The names that the cache of one rule holds.
    pub open spec fn cached_for(&self, rule: Rules) -> Seq<Seq<char>> {
        match rule {
            Rules::NeedsExplicitSources => <needs_explicit_sources::Config as Rule>::cached(
                &self.needs_explicit_sources,
            ),
            Rules::NeedsMetricDescription => <needs_metric_description::Config as Rule>::cached(
                &self.needs_metric_description,
            ),
            Rules::NeedsSourceDescription => <needs_source_description::Config as Rule>::cached(
                &self.needs_source_description,
            ),
            Rules::NoDuplicateMetrics => <no_duplicate_metrics::Config as Rule>::cached(
                &self.no_duplicate_metrics,
            ),
            Rules::NoDuplicatePageviews => <no_duplicate_pageviews::Config as Rule>::cached(
                &self.no_duplicate_pageviews,
            ),
            Rules::NoDuplicateSources => <no_duplicate_sources::Config as Rule>::cached(
                &self.no_duplicate_sources,
            ),
            Rules::UsesNameCase => <uses_name_case::Config as Rule>::cached(&self.uses_name_case),
        }
    }

    /// Whether the caches hold the whole plan: each what its rule keeps of
    /// every file, in the order of the files.
    pub open spec fn holds(&self, specs: Seq<&Spec>) -> bool {
        &&& self._common.names() == folded(specs, |spec: &Spec| spec.source_names())
        &&& forall|rule: Rules| #[trigger]
            self.cached_for(rule) == folded(specs, |spec: &Spec| kept_by(rule, spec))
    }

    /// Folds one file into the cache of one rule. The other caches stay as
    /// they are.
    pub fn pre_compute_rule(&mut self, rule: &Rules, spec: &Spec)
        ensures
            final(self).cached_for(*rule) == old(self).cached_for(*rule) + kept_by(*rule, spec),
            forall|other: Rules|
                other != *rule ==> #[trigger] final(self).cached_for(other) == old(self).cached_for(
                    other,
                ),
            final(self)._common == old(self)._common,
    {
        match rule {
            Rules::NeedsExplicitSources => <needs_explicit_sources::Config as Rule>::pre_compute(
                &mut self.needs_explicit_sources,
                spec,
            ),
            Rules::NeedsMetricDescription => <needs_metric_description::Config as Rule>::pre_compute(
                &mut self.needs_metric_description,
                spec,
            ),
            Rules::NeedsSourceDescription => <needs_source_description::Config as Rule>::pre_compute(
                &mut self.needs_source_description,
                spec,
            ),
            Rules::NoDuplicateMetrics => <no_duplicate_metrics::Config as Rule>::pre_compute(
                &mut self.no_duplicate_metrics,
                spec,
            ),
            Rules::NoDuplicatePageviews => <no_duplicate_pageviews::Config as Rule>::pre_compute(
                &mut self.no_duplicate_pageviews,
                spec,
            ),
            Rules::NoDuplicateSources => <no_duplicate_sources::Config as Rule>::pre_compute(
                &mut self.no_duplicate_sources,
                spec,
            ),
            Rules::UsesNameCase => <uses_name_case::Config as Rule>::pre_compute(
                &mut self.uses_name_case,
                spec,
            ),
        }
    }
}

/// What a file, or the whole plan, says about one rule: a level, where it
/// sets one, and the rule's own settings.
#[derive(Debug, Clone, Copy)]
pub struct RuleEntry<C> {
    pub level: Option<LintLevel>,
    pub config: C,
}

/// What a file, or the whole plan, says about the rules. A rule without an
/// entry is left to whoever comes next: the plan, then the rule's default.
#[derive(Debug, Clone, Copy)]
pub struct RulesConfig {
    pub needs_explicit_sources: Option<RuleEntry<needs_explicit_sources::Config>>,
    pub needs_metric_description: Option<RuleEntry<needs_metric_description::Config>>,
    pub needs_source_description: Option<RuleEntry<needs_source_description::Config>>,
    pub no_duplicate_metrics: Option<RuleEntry<no_duplicate_metrics::Config>>,
    pub no_duplicate_pageviews: Option<RuleEntry<no_duplicate_pageviews::Config>>,
    pub no_duplicate_sources: Option<RuleEntry<no_duplicate_sources::Config>>,
    pub uses_name_case: Option<RuleEntry<uses_name_case::Config>>,
}

/// One rule's entry after a file's own entry is laid over the plan's. The
/// file's settings stand as they are; only a level that the file leaves out
/// is taken from the plan.
pub open spec fn overlaid<C>(local: Option<RuleEntry<C>>, global: Option<RuleEntry<C>>) -> Option<
    RuleEntry<C>,
> {
    match (local, global) {
        (None, _) => global,
        (Some(l), None) => Some(l),
        (Some(l), Some(g)) => Some(
            RuleEntry { level: if l.level is Some { l.level } else { g.level }, config: l.config },
        ),
    }
}

/// Lays a file's entry for one rule over the plan's.
fn overlay<C: Copy>(local: Option<RuleEntry<C>>, global: Option<RuleEntry<C>>) -> (out: Option<
    RuleEntry<C>,
>)
    ensures
        out == overlaid(local, global),
{
    match local {
        None => global,
        Some(l) => match global {
            None => Some(l),
            Some(g) => {
                let level = match l.level {
                    Some(level) => Some(level),
                    None => g.level,
                };
                Some(RuleEntry { level, config: l.config })
            },
        },
    }
}

/// The registry lists every rule once, each at its position.
pub proof fn lemma_registry_lists_every_rule()
    ensures
        Rules::registry().len() == 7,
        Rules::registry().no_duplicates(),
        forall|rule: Rules|
            0 <= #[trigger] Rules::position(rule) < 7 && Rules::registry()[Rules::position(rule)]
                == rule,
{
    assert forall|i: int, j: int|
        0 <= i < Rules::registry().len() && 0 <= j < Rules::registry().len() && i
            != j implies Rules::registry()[i] != Rules::registry()[j] by {
        assert(Rules::position(Rules::registry()[i]) == i);
        assert(Rules::position(Rules::registry()[j]) == j);
    }
}

/// The configuration behind a reference, if there is one.
pub open spec fn held(config: Option<&RulesConfig>) -> Option<RulesConfig> {
    match config {
        Some(config) => Some(*config),
        None => None,
    }
}

/// Findings as results: each with the level at which its rule ran.
pub open spec fn tagged(findings: Seq<FindingView>, level: LintLevel) -> Seq<ResultView> {
    findings.map_values(|f: FindingView| (f.0, f.1, level, f.2))
}

/// The results of some rules on one file, rule after rule, each rule's
/// findings in the order in which it makes them. `cached` gives the names
/// that each rule's cache holds, `common` those of the shared cache.
pub open spec fn outcomes(
    config: RulesConfig,
    cached: spec_fn(Rules) -> Seq<Seq<char>>,
    common: Seq<Seq<char>>,
    spec: &Spec,
    rules: Seq<Rules>,
) -> Seq<ResultView>
    decreases rules.len(),
{
    if rules.len() == 0 {
        Seq::empty()
    } else {
        outcomes(config, cached, common, spec, rules.drop_last()) + tagged(
            config.found_by(rules.last(), cached(rules.last()), common, spec),
            config.level_of(rules.last()),
        )
    }
}

/// The results of every rule on one file, under the configuration that
/// holds for the file and with the caches as they are.
pub open spec fn results_of(cache: &RulesCache, global: Option<RulesConfig>, spec: &Spec) -> Seq<
    ResultView,
> {
    outcomes(
        RulesConfig::resolved(spec.lint, global),
        |rule: Rules| cache.cached_for(rule),
        cache._common.names(),
        spec,
        Rules::registry(),
    )
}

/// The results of every rule on one file of a plan: what `results_of` is
/// once the caches hold the whole plan.
pub open spec fn results_in(plan: Seq<&Spec>, global: Option<RulesConfig>, spec: &Spec) -> Seq<
    ResultView,
> {
    outcomes(
        RulesConfig::resolved(spec.lint, global),
        |rule: Rules| folded(plan, |file: &Spec| kept_by(rule, file)),
        folded(plan, |file: &Spec| file.source_names()),
        spec,
        Rules::registry(),
    )
}

/// With caches that hold the whole plan, a file's results are a function of
/// the plan, the plan's configuration and the file.
pub proof fn lemma_results_in_plan(
    cache: &RulesCache,
    plan: Seq<&Spec>,
    global: Option<RulesConfig>,
    spec: &Spec,
)
    requires
        cache.holds(plan),
    ensures
        results_of(cache, global, spec) == results_in(plan, global, spec),
{
    let from_cache = |rule: Rules| cache.cached_for(rule);
    let from_plan = |rule: Rules| folded(plan, |file: &Spec| kept_by(rule, file));
    assert(from_cache =~= from_plan);
}

/// The entry that holds for a rule: the configured one, or one that says
/// nothing.
pub open spec fn effective<C>(entry: Option<RuleEntry<C>>, fallback: C) -> RuleEntry<C> {
    match entry {
        Some(entry) => entry,
        None => RuleEntry { level: None, config: fallback },
    }
}

/// The level at which an entry runs its rule: the configured one, or the
/// rule's default.
pub open spec fn level_in<C: Rule>(entry: RuleEntry<C>) -> LintLevel {
    match entry.level {
        Some(level) => level,
        None => entry.config.default_level(),
    }
}

/// What an entry's rule reports on a file: nothing at level `Off`, else
/// what the rule finds.
pub open spec fn found_in<C: Rule>(
    entry: RuleEntry<C>,
    cached: Seq<Seq<char>>,
    common: Seq<Seq<char>>,
    spec: &Spec,
) -> Seq<FindingView> {
    if level_in(entry) == LintLevel::Off {
        Seq::empty()
    } else {
        entry.config.findings(cached, common, spec)
    }
}

/// How a file's entry and the plan's resolve for one rule. A level that the
/// file sets wins; one that it leaves out comes from the plan; where
/// neither sets one, the rule's default holds. The settings are the file's
/// where it has an entry, else the plan's, else the rule's defaults.
pub proof fn lemma_level_falls_back<C: Rule>(
    local: Option<RuleEntry<C>>,
    global: Option<RuleEntry<C>>,
    fallback: C,
)
    ensures
        ({
            let entry = effective(overlaid(local, global), fallback);
            &&& entry.config == match (local, global) {
                (Some(l), _) => l.config,
                (None, Some(g)) => g.config,
                (None, None) => fallback,
            }
            &&& level_in(entry) == match (local, global) {
                (Some(RuleEntry { level: Some(level), .. }), _) => level,
                (_, Some(RuleEntry { level: Some(level), .. })) => level,
                _ => entry.config.default_level(),
            }
        }),
{
}

/// Runs the rule of an entry on one file, unless the entry's level is `Off`.
fn run_entry<C: Rule>(entry: RuleEntry<C>, cache: RuleCache<C::Cache>, spec: &Spec) -> (out: (
    LintItem,
    LintLevel,
    Vec<(LintItem, String, LintResult)>,
))
    ensures
        out.0 == entry.config.item(),
        out.1 == level_in(entry),
        findings_view(out.2@) == found_in(entry, C::cached(cache.rule), cache.common.names(), spec),
{
    let level = match entry.level {
        Some(level) => level,
        None => entry.config.level(),
    };
    let ty = entry.config.ty();
    if level == LintLevel::Off {
        let none: Vec<(LintItem, String, LintResult)> = Vec::new();
        assert(findings_view(none@) =~= Seq::<FindingView>::empty());
        return (ty, level, none);
    }
    let results = entry.config.run(cache, spec);
    (ty, level, results)
}

impl Rules {
    /// The rules in running order.
    pub open spec fn registry() -> Seq<Rules> {
        seq![
            Rules::NeedsExplicitSources,
            Rules::NeedsMetricDescription,
            Rules::NeedsSourceDescription,
            Rules::NoDuplicateMetrics,
            Rules::NoDuplicatePageviews,
            Rules::NoDuplicateSources,
            Rules::UsesNameCase,
        ]
    }

    /// Where the rule stands in the running order.
    pub open spec fn position(rule: Rules) -> int {
        match rule {
            Rules::NeedsExplicitSources => 0,
            Rules::NeedsMetricDescription => 1,
            Rules::NeedsSourceDescription => 2,
            Rules::NoDuplicateMetrics => 3,
            Rules::NoDuplicatePageviews => 4,
            Rules::NoDuplicateSources => 5,
            Rules::UsesNameCase => 6,
        }
    }

    /// The identifier under which configuration files name the rule.
    pub open spec fn label(self) -> Seq<char> {
        match self {
            Rules::NeedsExplicitSources => "needs_explicit_sources"@,
            Rules::NeedsMetricDescription => "needs_metric_description"@,
            Rules::NeedsSourceDescription => "needs_source_description"@,
            Rules::NoDuplicateMetrics => "no_duplicate_metrics"@,
            Rules::NoDuplicatePageviews => "no_duplicate_pageviews"@,
            Rules::NoDuplicateSources => "no_duplicate_sources"@,
            Rules::UsesNameCase => "uses_name_case"@,
        }
    }

    /// The rules in running order.
    pub fn value_variants() -> (out: Vec<Rules>)
        ensures
            out@ == Rules::registry(),
    {
        let mut out: Vec<Rules> = Vec::new();
        out.push(Rules::NeedsExplicitSources);
        out.push(Rules::NeedsMetricDescription);
        out.push(Rules::NeedsSourceDescription);
        out.push(Rules::NoDuplicateMetrics);
        out.push(Rules::NoDuplicatePageviews);
        out.push(Rules::NoDuplicateSources);
        out.push(Rules::UsesNameCase);
        out
    }

    /// Builds the caches of a plan: first the shared cache over every file,
    /// then, rule by rule, the rule's own cache over every file. Nothing is
    /// checked before all of it is done.
    pub fn pre_compute(specs: Vec<&Spec>) -> (out: RulesCache)
        ensures
            out.holds(specs@),
    {
        let mut cache = RulesCache::default();
        let mut i: usize = 0;
        while i < specs.len()
            invariant
                i <= specs.len(),
                cache._common.names() == folded(
                    specs@.take(i as int),
                    |spec: &Spec| spec.source_names(),
                ),
                forall|rule: Rules| #[trigger] cache.cached_for(rule) == Seq::<Seq<char>>::empty(),
            decreases specs.len() - i,
        {
            let ghost before = cache;
            cache._common.pre_compute(specs[i]);
            proof {
                assert(specs@.take(i as int + 1).drop_last() =~= specs@.take(i as int));
                assert forall|rule: Rules| #[trigger]
                    cache.cached_for(rule) == Seq::<Seq<char>>::empty() by {
                    assert(before.cached_for(rule) == cache.cached_for(rule));
                }
            }
            i = i + 1;
        }
        assert(specs@.take(i as int) =~= specs@);
        let rules = Rules::value_variants();
        let mut r: usize = 0;
        while r < rules.len()
            invariant
                r <= rules.len(),
                rules@ == Rules::registry(),
                cache._common.names() == folded(specs@, |spec: &Spec| spec.source_names()),
                forall|k: int|
                    0 <= k < r ==> #[trigger] cache.cached_for(rules@[k]) == folded(
                        specs@,
                        |spec: &Spec| kept_by(rules@[k], spec),
                    ),
                forall|k: int|
                    r <= k < rules.len() ==> #[trigger] cache.cached_for(rules@[k]) == Seq::<
                        Seq<char>,
                    >::empty(),
            decreases rules.len() - r,
        {
            let rule = rules[r];
            let mut j: usize = 0;
            while j < specs.len()
                invariant
                    j <= specs.len(),
                    r < rules.len(),
                    rules@ == Rules::registry(),
                    rule == rules@[r as int],
                    cache._common.names() == folded(specs@, |spec: &Spec| spec.source_names()),
                    cache.cached_for(rule) == folded(
                        specs@.take(j as int),
                        |spec: &Spec| kept_by(rule, spec),
                    ),
                    forall|k: int|
                        0 <= k < r ==> #[trigger] cache.cached_for(rules@[k]) == folded(
                            specs@,
                            |spec: &Spec| kept_by(rules@[k], spec),
                        ),
                    forall|k: int|
                        r < k < rules.len() ==> #[trigger] cache.cached_for(rules@[k]) == Seq::<
                            Seq<char>,
                        >::empty(),
                decreases specs.len() - j,
            {
                cache.pre_compute_rule(&rule, specs[j]);
                proof {
                    assert(specs@.take(j as int + 1).drop_last() =~= specs@.take(j as int));
                    assert forall|k: int| 0 <= k < rules.len() && k != r implies rules@[k]
                        != rule by {}
                }
                j = j + 1;
            }
            assert(specs@.take(j as int) =~= specs@);
            r = r + 1;
        }
        proof {
            assert forall|rule: Rules| #[trigger]
                cache.cached_for(rule) == folded(specs@, |spec: &Spec| kept_by(rule, spec)) by {
                let k = Rules::position(rule);
                assert(rules@[k] == rule);
            }
        }
        cache
    }

    /// Checks one file against every rule, in running order, and gives each
    /// finding the level at which its rule ran.
    pub fn check(cache: &RulesCache, lint_file_config: Option<&RulesConfig>, spec: &Spec) -> (out:
        Vec<(LintItem, String, LintLevel, LintResult)>)
        ensures
            results_view(out@) == results_of(cache, held(lint_file_config), spec),
    {
        let rules_config = RulesConfig::merge(spec.lint.as_ref(), lint_file_config);
        let rules = Rules::value_variants();
        let mut out: Vec<(LintItem, String, LintLevel, LintResult)> = Vec::new();
        assert(results_view(out@) =~= Seq::<ResultView>::empty());
        let mut r: usize = 0;
        while r < rules.len()
            invariant
                r <= rules.len(),
                results_view(out@) == outcomes(
                    rules_config,
                    |rule: Rules| cache.cached_for(rule),
                    cache._common.names(),
                    spec,
                    rules@.take(r as int),
                ),
            decreases rules.len() - r,
        {
            let ghost before = results_view(out@);
            let (_, level, results) = rules_config.run_rule(&rules[r], cache, spec);
            let ghost found = findings_view(results@);
            for finding in it: results
                invariant
                    found == findings_view(it.seq()),
                    results_view(out@) == before + tagged(found.take(it.index() as int), level),
            {
                let ghost so_far = results_view(out@);
                out.push((finding.0, finding.1, level, finding.2));
                proof {
                    let i = it.index() as int;
                    assert(found.take(i + 1) =~= found.take(i).push(found[i]));
                    assert(results_view(out@) =~= so_far.push(
                        (found[i].0, found[i].1, level, found[i].2),
                    ));
                    assert(tagged(found.take(i + 1), level) =~= tagged(found.take(i), level).push(
                        (found[i].0, found[i].1, level, found[i].2),
                    ));
                }
            }
            proof {
                assert(found.take(found.len() as int) =~= found);
                assert(rules@.take(r as int + 1).drop_last() =~= rules@.take(r as int));
            }
            r = r + 1;
        }
        assert(rules@.take(r as int) =~= rules@);
        out
    }

    /// Checks one file and groups what was found by item kind, then by item
    /// name, each in first-seen order.
    pub fn run(cache: &RulesCache, lint_file_config: Option<&RulesConfig>, spec: &Spec) -> (out:
        IndexMap<LintItem, IndexMap<String, Vec<(LintLevel, LintResult)>>>)
        ensures
            report_entries(out) == aggregated(results_of(cache, held(lint_file_config), spec)),
    {
        aggregate(Rules::check(cache, lint_file_config, spec))
    }

    /// The identifier under which configuration files name the rule.
    pub fn name(&self) -> (out: &'static str)
        ensures
            out@ == self.label(),
    {
        match self {
            Rules::NeedsExplicitSources => "needs_explicit_sources",
            Rules::NeedsMetricDescription => "needs_metric_description",
            Rules::NeedsSourceDescription => "needs_source_description",
            Rules::NoDuplicateMetrics => "no_duplicate_metrics",
            Rules::NoDuplicatePageviews => "no_duplicate_pageviews",
            Rules::NoDuplicateSources => "no_duplicate_sources",
            Rules::UsesNameCase => "uses_name_case",
        }
    }
}

impl Default for RulesConfig {
    /// The configuration that says nothing about any rule.
    fn default() -> (out: Self)
        ensures
            out == RulesConfig::empty(),
    {
        RulesConfig {
            needs_explicit_sources: None,
            needs_metric_description: None,
            needs_source_description: None,
            no_duplicate_metrics: None,
            no_duplicate_pageviews: None,
            no_duplicate_sources: None,
            uses_name_case: None,
        }
    }
}

impl RulesConfig {
    /// The configuration that says nothing about any rule.
    pub open spec fn empty() -> RulesConfig {
        RulesConfig {
            needs_explicit_sources: None,
            needs_metric_description: None,
            needs_source_description: None,
            no_duplicate_metrics: None,
            no_duplicate_pageviews: None,
            no_duplicate_sources: None,
            uses_name_case: None,
        }
    }

    /// This configuration laid over the plan's, rule by rule.
    pub open spec fn based_upon(self, common: RulesConfig) -> RulesConfig {
        RulesConfig {
            needs_explicit_sources: overlaid(
                self.needs_explicit_sources,
                common.needs_explicit_sources,
            ),
            needs_metric_description: overlaid(
                self.needs_metric_description,
                common.needs_metric_description,
            ),
            needs_source_description: overlaid(
                self.needs_source_description,
                common.needs_source_description,
            ),
            no_duplicate_metrics: overlaid(self.no_duplicate_metrics, common.no_duplicate_metrics),
            no_duplicate_pageviews: overlaid(
                self.no_duplicate_pageviews,
                common.no_duplicate_pageviews,
            ),
            no_duplicate_sources: overlaid(self.no_duplicate_sources, common.no_duplicate_sources),
            uses_name_case: overlaid(self.uses_name_case, common.uses_name_case),
        }
    }

    /// The configuration that holds for a file: its own laid over the
    /// plan's, as far as either is there.
    pub open spec fn resolved(local: Option<RulesConfig>, global: Option<RulesConfig>) -> RulesConfig {
        match (local, global) {
            (None, None) => RulesConfig::empty(),
            (None, Some(g)) => g,
            (Some(l), None) => l,
            (Some(l), Some(g)) => l.based_upon(g),
        }
    }

    /// The kind of item that a rule is about in the first place.
    pub open spec fn item_of(self, rule: Rules) -> LintItem {
        match rule {
            Rules::NeedsExplicitSources => effective(
                self.needs_explicit_sources,
                needs_explicit_sources::Config {  },
            ).config.item(),
            Rules::NeedsMetricDescription => effective(
                self.needs_metric_description,
                needs_metric_description::Config {  },
            ).config.item(),
            Rules::NeedsSourceDescription => effective(
                self.needs_source_description,
                needs_source_description::Config {  },
            ).config.item(),
            Rules::NoDuplicateMetrics => effective(
                self.no_duplicate_metrics,
                no_duplicate_metrics::Config {  },
            ).config.item(),
            Rules::NoDuplicatePageviews => effective(
                self.no_duplicate_pageviews,
                no_duplicate_pageviews::Config {  },
            ).config.item(),
            Rules::NoDuplicateSources => effective(
                self.no_duplicate_sources,
                no_duplicate_sources::Config {  },
            ).config.item(),
            Rules::UsesNameCase => effective(
                self.uses_name_case,
                uses_name_case::Config { metric: None, pageview: None },
            ).config.item(),
        }
    }

    /// The level at which this configuration runs a rule.
    pub open spec fn level_of(self, rule: Rules) -> LintLevel {
        match rule {
            Rules::NeedsExplicitSources => level_in(
                effective(self.needs_explicit_sources, needs_explicit_sources::Config {  }),
            ),
            Rules::NeedsMetricDescription => level_in(
                effective(self.needs_metric_description, needs_metric_description::Config {  }),
            ),
            Rules::NeedsSourceDescription => level_in(
                effective(self.needs_source_description, needs_source_description::Config {  }),
            ),
            Rules::NoDuplicateMetrics => level_in(
                effective(self.no_duplicate_metrics, no_duplicate_metrics::Config {  }),
            ),
            Rules::NoDuplicatePageviews => level_in(
                effective(self.no_duplicate_pageviews, no_duplicate_pageviews::Config {  }),
            ),
            Rules::NoDuplicateSources => level_in(
                effective(self.no_duplicate_sources, no_duplicate_sources::Config {  }),
            ),
            Rules::UsesNameCase => level_in(
                effective(
                    self.uses_name_case,
                    uses_name_case::Config { metric: None, pageview: None },
                ),
            ),
        }
    }

    /// What this configuration has a rule report on a file, given the names
    /// that the rule's cache and the shared cache hold.
    pub open spec fn found_by(
        self,
        rule: Rules,
        cached: Seq<Seq<char>>,
        common: Seq<Seq<char>>,
        spec: &Spec,
    ) -> Seq<FindingView> {
        match rule {
            Rules::NeedsExplicitSources => found_in(
                effective(self.needs_explicit_sources, needs_explicit_sources::Config {  }),
                cached,
                common,
                spec,
            ),
            Rules::NeedsMetricDescription => found_in(
                effective(self.needs_metric_description, needs_metric_description::Config {  }),
                cached,
                common,
                spec,
            ),
            Rules::NeedsSourceDescription => found_in(
                effective(self.needs_source_description, needs_source_description::Config {  }),
                cached,
                common,
                spec,
            ),
            Rules::NoDuplicateMetrics => found_in(
                effective(self.no_duplicate_metrics, no_duplicate_metrics::Config {  }),
                cached,
                common,
                spec,
            ),
            Rules::NoDuplicatePageviews => found_in(
                effective(self.no_duplicate_pageviews, no_duplicate_pageviews::Config {  }),
                cached,
                common,
                spec,
            ),
            Rules::NoDuplicateSources => found_in(
                effective(self.no_duplicate_sources, no_duplicate_sources::Config {  }),
                cached,
                common,
                spec,
            ),
            Rules::UsesNameCase => found_in(
                effective(
                    self.uses_name_case,
                    uses_name_case::Config { metric: None, pageview: None },
                ),
                cached,
                common,
                spec,
            ),
        }
    }

    /// Runs one rule on one file: at the level that the configuration gives
    /// it, and not at all where that level is `Off`.
    pub fn run_rule(&self, rule: &Rules, cache: &RulesCache, spec: &Spec) -> (out: (
        LintItem,
        LintLevel,
        Vec<(LintItem, String, LintResult)>,
    ))
        ensures
            out.0 == self.item_of(*rule),
            out.1 == self.level_of(*rule),
            findings_view(out.2@) == self.found_by(
                *rule,
                cache.cached_for(*rule),
                cache._common.names(),
                spec,
            ),
    {
        match rule {
            Rules::NeedsExplicitSources => {
                let entry = match self.needs_explicit_sources {
                    Some(entry) => entry,
                    None => RuleEntry { level: None, config: Default::default() },
                };
                let rule_cache = RuleCache {
                    common: &cache._common,
                    rule: &cache.needs_explicit_sources,
                };
                run_entry(entry, rule_cache, spec)
            },
            Rules::NeedsMetricDescription => {
                let entry = match self.needs_metric_description {
                    Some(entry) => entry,
                    None => RuleEntry { level: None, config: Default::default() },
                };
                let rule_cache = RuleCache {
                    common: &cache._common,
                    rule: &cache.needs_metric_description,
                };
                run_entry(entry, rule_cache, spec)
            },
            Rules::NeedsSourceDescription => {
                let entry = match self.needs_source_description {
                    Some(entry) => entry,
                    None => RuleEntry { level: None, config: Default::default() },
                };
                let rule_cache = RuleCache {
                    common: &cache._common,
                    rule: &cache.needs_source_description,
                };
                run_entry(entry, rule_cache, spec)
            },
            Rules::NoDuplicateMetrics => {
                let entry = match self.no_duplicate_metrics {
                    Some(entry) => entry,
                    None => RuleEntry { level: None, config: Default::default() },
                };
                let rule_cache = RuleCache {
                    common: &cache._common,
                    rule: &cache.no_duplicate_metrics,
                };
                run_entry(entry, rule_cache, spec)
            },
            Rules::NoDuplicatePageviews => {
                let entry = match self.no_duplicate_pageviews {
                    Some(entry) => entry,
                    None => RuleEntry { level: None, config: Default::default() },
                };
                let rule_cache = RuleCache {
                    common: &cache._common,
                    rule: &cache.no_duplicate_pageviews,
                };
                run_entry(entry, rule_cache, spec)
            },
            Rules::NoDuplicateSources => {
                let entry = match self.no_duplicate_sources {
                    Some(entry) => entry,
                    None => RuleEntry { level: None, config: Default::default() },
                };
                let rule_cache = RuleCache {
                    common: &cache._common,
                    rule: &cache.no_duplicate_sources,
                };
                run_entry(entry, rule_cache, spec)
            },
            Rules::UsesNameCase => {
                let entry = match self.uses_name_case {
                    Some(entry) => entry,
                    None => RuleEntry { level: None, config: Default::default() },
                };
                let rule_cache = RuleCache { common: &cache._common, rule: &cache.uses_name_case };
                run_entry(entry, rule_cache, spec)
            },
        }
    }

    /// Lays this configuration over the plan's, rule by rule.
    pub fn base_upon(self, common: &RulesConfig) -> (out: RulesConfig)
        ensures
            out == self.based_upon(*common),
    {
        RulesConfig {
            needs_explicit_sources: overlay(
                self.needs_explicit_sources,
                common.needs_explicit_sources,
            ),
            needs_metric_description: overlay(
                self.needs_metric_description,
                common.needs_metric_description,
            ),
            needs_source_description: overlay(
                self.needs_source_description,
                common.needs_source_description,
            ),
            no_duplicate_metrics: overlay(self.no_duplicate_metrics, common.no_duplicate_metrics),
            no_duplicate_pageviews: overlay(
                self.no_duplicate_pageviews,
                common.no_duplicate_pageviews,
            ),
            no_duplicate_sources: overlay(self.no_duplicate_sources, common.no_duplicate_sources),
            uses_name_case: overlay(self.uses_name_case, common.uses_name_case),
        }
    }

    /// Resolves the configuration for one file.
    pub fn merge(local: Option<&RulesConfig>, global: Option<&RulesConfig>) -> (out: RulesConfig)
        ensures
            out == RulesConfig::resolved(held(local), held(global)),
    {
        match local {
            None => match global {
                None => RulesConfig::default(),
                Some(g) => *g,
            },
            Some(l) => match global {
                None => *l,
                Some(g) => l.base_upon(g),
            },
        }
    }
}

} // verus!
