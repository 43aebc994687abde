//! What holds of the engine as a whole.

use vstd::prelude::*;

use crate::lint::rules::cache::occurrences;
use crate::lint::rules::{no_duplicate_metrics, no_duplicate_pageviews, no_duplicate_sources};
use crate::lint::rules::{
    folded, gathered, kept_by, outcomes, results_in, tagged, Rule, Rules, RulesConfig,
};
use crate::lint::{FindingView, LintItem, LintLevel};
use crate::schema::spec::{entries_of, Event, Pageview, Source, Spec};

verus! {

/// A name occurs in two lists put together as often as in both.
pub proof fn lemma_occurrences_add(a: Seq<Seq<char>>, b: Seq<Seq<char>>, name: Seq<char>)
    ensures
        occurrences(a + b, name) == occurrences(a, name) + occurrences(b, name),
    decreases b.len(),
{
    if b.len() == 0 {
        assert(a + b =~= a);
    } else {
        assert((a + b).drop_last() =~= a + b.drop_last());
        lemma_occurrences_add(a, b.drop_last(), name);
    }
}

/// A name that a list holds occurs in it at least once; one that it does
/// not hold occurs in it not at all.
pub proof fn lemma_occurrences_contains(names: Seq<Seq<char>>, name: Seq<char>)
    ensures
        names.contains(name) <==> occurrences(names, name) >= 1,
    decreases names.len(),
{
    if names.len() > 0 {
        lemma_occurrences_contains(names.drop_last(), name);
        if names.drop_last().contains(name) {
            let k = choose|k: int| 0 <= k < names.drop_last().len() && names.drop_last()[k] == name;
            assert(names[k] == name);
        }
        if names.contains(name) && names.last() != name {
            let k = choose|k: int| 0 <= k < names.len() && names[k] == name;
            assert(names.drop_last()[k] == name);
        }
    }
}

/// A name occurs in the names of a plan at least as often as in those of
/// any one of its files.
pub proof fn lemma_file_counts(
    plan: Seq<&Spec>,
    kept: spec_fn(&Spec) -> Seq<Seq<char>>,
    i: int,
    name: Seq<char>,
)
    requires
        0 <= i < plan.len(),
    ensures
        occurrences(folded(plan, kept), name) >= occurrences(kept(plan[i]), name),
    decreases plan.len(),
{
    lemma_occurrences_add(folded(plan.drop_last(), kept), kept(plan.last()), name);
    if i < plan.len() - 1 {
        lemma_file_counts(plan.drop_last(), kept, i, name);
    }
}

/// A name that two files of a plan keep occurs at least twice in the names
/// of the plan.
pub proof fn lemma_shared_name_counts_twice(
    plan: Seq<&Spec>,
    kept: spec_fn(&Spec) -> Seq<Seq<char>>,
    i: int,
    j: int,
    name: Seq<char>,
)
    requires
        0 <= i < j < plan.len(),
        kept(plan[i]).contains(name),
        kept(plan[j]).contains(name),
    ensures
        occurrences(folded(plan, kept), name) >= 2,
    decreases plan.len(),
{
    lemma_occurrences_add(folded(plan.drop_last(), kept), kept(plan.last()), name);
    if j < plan.len() - 1 {
        lemma_shared_name_counts_twice(plan.drop_last(), kept, i, j, name);
    } else {
        lemma_file_counts(plan.drop_last(), kept, i, name);
        lemma_occurrences_contains(kept(plan[i]), name);
        lemma_occurrences_contains(kept(plan[j]), name);
    }
}

/// A name occurs at most once in a list that holds nothing twice.
pub proof fn lemma_distinct_names_occur_once(names: Seq<Seq<char>>, name: Seq<char>)
    requires
        names.no_duplicates(),
    ensures
        occurrences(names, name) <= 1,
    decreases names.len(),
{
    if names.len() > 0 {
        assert forall|a: int, b: int|
            0 <= a < names.drop_last().len() && 0 <= b < names.drop_last().len() && a
                != b implies names.drop_last()[a] != names.drop_last()[b] by {
            assert(names.drop_last()[a] == names[a]);
            assert(names.drop_last()[b] == names[b]);
        }
        lemma_distinct_names_occur_once(names.drop_last(), name);
        lemma_occurrences_contains(names.drop_last(), name);
        if names.last() == name && names.drop_last().contains(name) {
            let k = choose|k: int| 0 <= k < names.drop_last().len() && names.drop_last()[k] == name;
            assert(names[k] == names[names.len() - 1]);
        }
    }
}

/// Where every file of a plan is well formed, a source name that occurs
/// more than once in the plan is declared by two of its files: within one
/// file a name is a key, so duplication is a matter between files.
pub proof fn lemma_duplicate_spans_files(plan: Seq<&Spec>, name: Seq<char>) -> (at: (int, int))
    requires
        forall|k: int| 0 <= k < plan.len() ==> (#[trigger] plan[k]).wf(),
        occurrences(folded(plan, |file: &Spec| file.source_names()), name) > 1,
    ensures
        0 <= at.0 < at.1 < plan.len(),
        plan[at.0].source_names().contains(name),
        plan[at.1].source_names().contains(name),
    decreases plan.len(),
{
    let kept = |file: &Spec| file.source_names();
    if plan.len() == 0 {
        (0, 0)
    } else {
        let head = folded(plan.drop_last(), kept);
        lemma_occurrences_add(head, kept(plan.last()), name);
        assert(plan.last() == plan[plan.len() - 1]);
        lemma_distinct_names_occur_once(plan.last().source_names(), name);
        assert forall|k: int| 0 <= k < plan.drop_last().len() implies (
        #[trigger] plan.drop_last()[k]).wf() by {
            assert(plan.drop_last()[k] == plan[k]);
        }
        if occurrences(head, name) > 1 {
            let at = lemma_duplicate_spans_files(plan.drop_last(), name);
            assert(plan.drop_last()[at.0] == plan[at.0]);
            assert(plan.drop_last()[at.1] == plan[at.1]);
            at
        } else {
            lemma_occurrences_contains(kept(plan.last()), name);
            let first = lemma_file_with_name(plan.drop_last(), kept, name);
            assert(plan.drop_last()[first] == plan[first]);
            (first, plan.len() - 1)
        }
    }
}

/// A name that occurs in the names of a plan is kept by one of its files.
pub proof fn lemma_file_with_name(
    plan: Seq<&Spec>,
    kept: spec_fn(&Spec) -> Seq<Seq<char>>,
    name: Seq<char>,
) -> (k: int)
    requires
        occurrences(folded(plan, kept), name) >= 1,
    ensures
        0 <= k < plan.len(),
        kept(plan[k]).contains(name),
    decreases plan.len(),
{
    if plan.len() == 0 {
        0
    } else {
        lemma_occurrences_add(folded(plan.drop_last(), kept), kept(plan.last()), name);
        if occurrences(kept(plan.last()), name) >= 1 {
            lemma_occurrences_contains(kept(plan.last()), name);
            plan.len() - 1
        } else {
            let k = lemma_file_with_name(plan.drop_last(), kept, name);
            assert(plan.drop_last()[k] == plan[k]);
            k
        }
    }
}

/// What one entry gives is part of what its table gives.
pub proof fn lemma_gathered_holds<T>(
    entries: Seq<T>,
    each: spec_fn(T) -> Seq<FindingView>,
    k: int,
    finding: FindingView,
)
    requires
        0 <= k < entries.len(),
        each(entries[k]).contains(finding),
    ensures
        gathered(entries, each).contains(finding),
    decreases entries.len(),
{
    let head = gathered(entries.drop_last(), each);
    let tail = each(entries.last());
    if k < entries.len() - 1 {
        lemma_gathered_holds(entries.drop_last(), each, k, finding);
        let at = choose|at: int| 0 <= at < head.len() && head[at] == finding;
        assert((head + tail)[at] == finding);
    } else {
        let at = choose|at: int| 0 <= at < tail.len() && tail[at] == finding;
        assert((head + tail)[head.len() + at] == finding);
    }
}

/// Whatever a table gives, one of its entries gives.
pub proof fn lemma_gathered_from<T>(
    entries: Seq<T>,
    each: spec_fn(T) -> Seq<FindingView>,
    finding: FindingView,
) -> (k: int)
    requires
        gathered(entries, each).contains(finding),
    ensures
        0 <= k < entries.len(),
        each(entries[k]).contains(finding),
    decreases entries.len(),
{
    let head = gathered(entries.drop_last(), each);
    let tail = each(entries.last());
    let at = choose|at: int| 0 <= at < (head + tail).len() && (head + tail)[at] == finding;
    if entries.len() == 0 {
        0
    } else if at < head.len() {
        assert(head[at] == finding);
        lemma_gathered_from(entries.drop_last(), each, finding)
    } else {
        assert(tail[at - head.len()] == finding);
        entries.len() - 1
    }
}

/// What a rule of the registry reports on a file is among the file's
/// results, at the level at which the rule ran.
pub proof fn lemma_outcomes_hold(
    config: RulesConfig,
    cached: spec_fn(Rules) -> Seq<Seq<char>>,
    common: Seq<Seq<char>>,
    spec: &Spec,
    rules: Seq<Rules>,
    r: int,
    finding: FindingView,
)
    requires
        0 <= r < rules.len(),
        config.found_by(rules[r], cached(rules[r]), common, spec).contains(finding),
    ensures
        outcomes(config, cached, common, spec, rules).contains(
            (finding.0, finding.1, config.level_of(rules[r]), finding.2),
        ),
    decreases rules.len(),
{
    let head = outcomes(config, cached, common, spec, rules.drop_last());
    let found = config.found_by(rules.last(), cached(rules.last()), common, spec);
    let tail = tagged(found, config.level_of(rules.last()));
    let result = (finding.0, finding.1, config.level_of(rules[r]), finding.2);
    if r < rules.len() - 1 {
        lemma_outcomes_hold(config, cached, common, spec, rules.drop_last(), r, finding);
        let at = choose|at: int| 0 <= at < head.len() && head[at] == result;
        assert((head + tail)[at] == result);
    } else {
        let at = choose|at: int| 0 <= at < found.len() && found[at] == finding;
        assert(tail[at] == result);
        assert((head + tail)[head.len() + at] == result);
    }
}

/// A source name that two files of a plan declare is reported as
/// duplicated in every file that declares it and does not switch the rule
/// off. What the other files set the rule to does not matter: a file that
/// silences the rule for itself still counts.
pub proof fn lemma_duplicate_source_is_reported(
    plan: Seq<&Spec>,
    global: Option<RulesConfig>,
    i: int,
    j: int,
    name: Seq<char>,
)
    requires
        0 <= i < plan.len(),
        0 <= j < plan.len(),
        i != j,
        plan[i].source_names().contains(name),
        plan[j].source_names().contains(name),
        RulesConfig::resolved(plan[i].lint, global).level_of(Rules::NoDuplicateSources)
            != LintLevel::Off,
    ensures
        results_in(plan, global, plan[i]).contains(
            (
                LintItem::Source,
                name,
                RulesConfig::resolved(plan[i].lint, global).level_of(Rules::NoDuplicateSources),
                "source name is duplicated"@,
            ),
        ),
{
    let kept = |file: &Spec| file.source_names();
    let common = folded(plan, kept);
    if i < j {
        lemma_shared_name_counts_twice(plan, kept, i, j, name);
    } else {
        lemma_shared_name_counts_twice(plan, kept, j, i, name);
    }
    let spec = plan[i];
    let entries = entries_of(spec.sources);
    let k = choose|k: int| 0 <= k < spec.source_names().len() && spec.source_names()[k] == name;
    let each = |entry: (String, Source)| no_duplicate_sources::duplicated(common, entry);
    let finding = (LintItem::Source, name, "source name is duplicated"@);
    assert(each(entries[k])[0] == finding);
    lemma_gathered_holds(entries, each, k, finding);
    let config = RulesConfig::resolved(spec.lint, global);
    let cached = |rule: Rules| folded(plan, |file: &Spec| kept_by(rule, file));
    assert(Rules::registry()[5] == Rules::NoDuplicateSources);
    lemma_outcomes_hold(config, cached, common, spec, Rules::registry(), 5, finding);
}

/// A metric name that two files of a plan declare is reported as
/// duplicated in every file that declares it and does not switch the rule
/// off, whatever the other files set the rule to.
pub proof fn lemma_duplicate_metric_is_reported(
    plan: Seq<&Spec>,
    global: Option<RulesConfig>,
    i: int,
    j: int,
    name: Seq<char>,
)
    requires
        0 <= i < plan.len(),
        0 <= j < plan.len(),
        i != j,
        plan[i].metric_names().contains(name),
        plan[j].metric_names().contains(name),
        RulesConfig::resolved(plan[i].lint, global).level_of(Rules::NoDuplicateMetrics)
            != LintLevel::Off,
    ensures
        results_in(plan, global, plan[i]).contains(
            (
                LintItem::Metric,
                name,
                RulesConfig::resolved(plan[i].lint, global).level_of(Rules::NoDuplicateMetrics),
                "metric name is duplicated"@,
            ),
        ),
{
    let kept = |file: &Spec| kept_by(Rules::NoDuplicateMetrics, file);
    let names = folded(plan, kept);
    if i < j {
        lemma_shared_name_counts_twice(plan, kept, i, j, name);
    } else {
        lemma_shared_name_counts_twice(plan, kept, j, i, name);
    }
    let spec = plan[i];
    let entries = entries_of(spec.metrics);
    let k = choose|k: int| 0 <= k < spec.metric_names().len() && spec.metric_names()[k] == name;
    let each = |entry: (String, Event)| no_duplicate_metrics::duplicated(names, entry);
    let finding = (LintItem::Metric, name, "metric name is duplicated"@);
    assert(each(entries[k])[0] == finding);
    lemma_gathered_holds(entries, each, k, finding);
    let config = RulesConfig::resolved(spec.lint, global);
    let cached = |rule: Rules| folded(plan, |file: &Spec| kept_by(rule, file));
    let common = folded(plan, |file: &Spec| file.source_names());
    assert(Rules::registry()[3] == Rules::NoDuplicateMetrics);
    lemma_outcomes_hold(config, cached, common, spec, Rules::registry(), 3, finding);
}

/// A pageview name that two files of a plan declare is reported as
/// duplicated in every file that declares it and does not switch the rule
/// off, whatever the other files set the rule to.
pub proof fn lemma_duplicate_pageview_is_reported(
    plan: Seq<&Spec>,
    global: Option<RulesConfig>,
    i: int,
    j: int,
    name: Seq<char>,
)
    requires
        0 <= i < plan.len(),
        0 <= j < plan.len(),
        i != j,
        plan[i].pageview_names().contains(name),
        plan[j].pageview_names().contains(name),
        RulesConfig::resolved(plan[i].lint, global).level_of(Rules::NoDuplicatePageviews)
            != LintLevel::Off,
    ensures
        results_in(plan, global, plan[i]).contains(
            (
                LintItem::Pageview,
                name,
                RulesConfig::resolved(plan[i].lint, global).level_of(Rules::NoDuplicatePageviews),
                "pageview name is duplicated"@,
            ),
        ),
{
    let kept = |file: &Spec| kept_by(Rules::NoDuplicatePageviews, file);
    let names = folded(plan, kept);
    if i < j {
        lemma_shared_name_counts_twice(plan, kept, i, j, name);
    } else {
        lemma_shared_name_counts_twice(plan, kept, j, i, name);
    }
    let spec = plan[i];
    let entries = entries_of(spec.pageviews);
    let k = choose|k: int|
        0 <= k < spec.pageview_names().len() && spec.pageview_names()[k] == name;
    let each = |entry: (String, Pageview)| no_duplicate_pageviews::duplicated(names, entry);
    let finding = (LintItem::Pageview, name, "pageview name is duplicated"@);
    assert(each(entries[k])[0] == finding);
    lemma_gathered_holds(entries, each, k, finding);
    let config = RulesConfig::resolved(spec.lint, global);
    let cached = |rule: Rules| folded(plan, |file: &Spec| kept_by(rule, file));
    let common = folded(plan, |file: &Spec| file.source_names());
    assert(Rules::registry()[4] == Rules::NoDuplicatePageviews);
    lemma_outcomes_hold(config, cached, common, spec, Rules::registry(), 4, finding);
}

/// A source name that occurs once in the whole plan is never reported as
/// duplicated, whatever the file and its configuration.
pub proof fn lemma_single_source_is_not_reported(
    plan: Seq<&Spec>,
    config: no_duplicate_sources::Config,
    spec: &Spec,
    name: Seq<char>,
    message: Seq<char>,
)
    requires
        occurrences(folded(plan, |file: &Spec| file.source_names()), name) <= 1,
    ensures
        !config.findings(
            Seq::empty(),
            folded(plan, |file: &Spec| file.source_names()),
            spec,
        ).contains((LintItem::Source, name, message)),
{
    let common = folded(plan, |file: &Spec| file.source_names());
    let each = |entry: (String, Source)| no_duplicate_sources::duplicated(common, entry);
    let finding = (LintItem::Source, name, message);
    if gathered(entries_of(spec.sources), each).contains(finding) {
        let k = lemma_gathered_from(entries_of(spec.sources), each, finding);
        let hit = each(entries_of(spec.sources)[k]);
        let at = choose|at: int| 0 <= at < hit.len() && hit[at] == finding;
        assert(hit[at] == finding);
    }
}

/// A rule that a file switches off reports nothing on that file.
pub proof fn lemma_off_reports_nothing(
    config: RulesConfig,
    rule: Rules,
    cached: Seq<Seq<char>>,
    common: Seq<Seq<char>>,
    spec: &Spec,
)
    requires
        config.level_of(rule) == LintLevel::Off,
    ensures
        config.found_by(rule, cached, common, spec) == Seq::<FindingView>::empty(),
{
}

/// What the caches hold of a plan does not depend on what its files say
/// about the rules: two plans whose files declare the same names give the
/// same names, whatever levels they set.
pub proof fn lemma_names_ignore_configuration(
    plan: Seq<&Spec>,
    other: Seq<&Spec>,
    rule: Rules,
)
    requires
        plan.len() == other.len(),
        forall|k: int|
            0 <= k < plan.len() ==> (#[trigger] plan[k]).metrics == other[k].metrics
                && plan[k].pageviews == other[k].pageviews && plan[k].sources == other[k].sources,
    ensures
        folded(plan, |file: &Spec| kept_by(rule, file)) == folded(
            other,
            |file: &Spec| kept_by(rule, file),
        ),
        folded(plan, |file: &Spec| file.source_names()) == folded(
            other,
            |file: &Spec| file.source_names(),
        ),
    decreases plan.len(),
{
    if plan.len() > 0 {
        assert(plan.last() == plan[plan.len() - 1]);
        assert(other.last() == other[plan.len() - 1]);
        assert forall|k: int| 0 <= k < plan.drop_last().len() implies (
        #[trigger] plan.drop_last()[k]).metrics == other.drop_last()[k].metrics
            && plan.drop_last()[k].pageviews == other.drop_last()[k].pageviews
            && plan.drop_last()[k].sources == other.drop_last()[k].sources by {
            assert(plan.drop_last()[k] == plan[k]);
            assert(other.drop_last()[k] == other[k]);
        }
        lemma_names_ignore_configuration(plan.drop_last(), other.drop_last(), rule);
    }
}

} // verus!
