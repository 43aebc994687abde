//! No metric name is declared twice in the plan.

use vstd::prelude::*;

use crate::lint::rules::cache::{count_name, extend_names, names_view, occurrences, RuleCache};
use crate::lint::rules::{gathered, Rule};
use crate::lint::{findings_view, FindingView, LintItem, LintLevel, LintResult};
use crate::schema::spec::{entries_of, Event, Spec};

verus! {

/// The rule has no settings of its own.
#[derive(Debug, Clone, Copy, PartialEq, Eq, Structural)]
pub struct Config {}

/// The metric names of every file of the plan, file after file.
#[derive(Debug)]
pub struct Cache {
    pub metrics: Vec<String>,
}

impl Default for Config {
    fn default() -> (out: Self)
        ensures
            out == (Config {  }),
    {
        Config {  }
    }
}

impl Cache {
    /// The cache before any file is folded in.
    pub fn new() -> (out: Self)
        ensures
            names_view(out.metrics@) == Seq::<Seq<char>>::empty(),
    {
        let out = Cache { metrics: Vec::new() };
        assert(names_view(out.metrics@) =~= Seq::<Seq<char>>::empty());
        out
    }
}

/// What the rule finds in one metric: a name that the plan holds more than
/// once, in this file or another.
pub open spec fn duplicated(cached: Seq<Seq<char>>, entry: (String, Event)) -> Seq<FindingView> {
    if occurrences(cached, entry.0@) > 1 {
        seq![(LintItem::Metric, entry.0@, "metric name is duplicated"@)]
    } else {
        Seq::empty()
    }
}

impl Rule for Config {
    type Cache = Cache;

    open spec fn default_level(&self) -> LintLevel {
        LintLevel::Error
    }

    open spec fn item(&self) -> LintItem {
        LintItem::Metric
    }

    open spec fn cached(cache: &Cache) -> Seq<Seq<char>> {
        names_view(cache.metrics@)
    }

    open spec fn kept(spec: &Spec) -> Seq<Seq<char>> {
        spec.metric_names()
    }

    open spec fn findings(&self, cached: Seq<Seq<char>>, common: Seq<Seq<char>>, spec: &Spec) -> Seq<
        FindingView,
    > {
        gathered(entries_of(spec.metrics), |entry: (String, Event)| duplicated(cached, entry))
    }

    fn level(&self) -> (out: LintLevel) {
        LintLevel::Error
    }

    fn ty(&self) -> (out: LintItem) {
        LintItem::Metric
    }

    fn pre_compute(cache: &mut Cache, spec: &Spec) {
        extend_names(&mut cache.metrics, &spec.metrics);
    }

    fn run(&self, cache: RuleCache<Cache>, spec: &Spec) -> (out: Vec<
        (LintItem, String, LintResult),
    >) {
        let mut out: Vec<(LintItem, String, LintResult)> = Vec::new();
        let ghost cached = names_view(cache.rule.metrics@);
        let ghost each = |entry: (String, Event)| duplicated(cached, entry);
        if let Some(entries) = &spec.metrics {
            let mut i: usize = 0;
            while i < entries.len()
                invariant
                    i <= entries.len(),
                    cached == names_view(cache.rule.metrics@),
                    each == |entry: (String, Event)| duplicated(cached, entry),
                    findings_view(out@) == gathered(entries@.take(i as int), each),
                decreases entries.len() - i,
            {
                let ghost before = out@;
                proof {
                    assert(entries@.take(i as int + 1).drop_last() =~= entries@.take(i as int));
                }
                if count_name(&cache.rule.metrics, &entries[i].0) > 1 {
                    let message = String::from_str("metric name is duplicated");
                    out.push((LintItem::Metric, entries[i].0.clone(), LintResult { message }));
                }
                assert(findings_view(out@) =~= findings_view(before) + duplicated(
                    cached,
                    entries[i as int],
                ));
                i = i + 1;
            }
            assert(entries@.take(i as int) =~= entries@);
        }
        out
    }
}

} // verus!
