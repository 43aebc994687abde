//! Every source that a metric or a pageview refers to is declared.

use vstd::prelude::*;

use crate::lint::rules::cache::{has_name, names_view, CommonCache, RuleCache};
use crate::lint::rules::{gathered, NoCache, Rule};
use crate::lint::{findings_view, FindingView, LintItem, LintLevel, LintResult};
use crate::schema::spec::{entries_of, Event, Pageview, Spec};

verus! {

/// The rule has no settings of its own.
#[derive(Debug, Clone, Copy, PartialEq, Eq, Structural)]
pub struct Config {}

impl Default for Config {
    fn default() -> (out: Self)
        ensures
            out == (Config {  }),
    {
        Config {  }
    }
}

/// The source names that an item refers to; an item without a list refers
/// to none.
pub open spec fn references(sources: Option<Vec<String>>) -> Seq<Seq<char>> {
    match sources {
        Some(names) => names_view(names@),
        None => Seq::empty(),
    }
}

/// The message for a reference to a source that nobody declares.
pub open spec fn undefined(source: Seq<char>) -> Seq<char> {
    "source `"@ + source + "` is not defined"@
}

/// What the rule finds in one item: one finding for each reference, in
/// order, whose name no file of the plan declares as a source.
pub open spec fn dangling(
    common: Seq<Seq<char>>,
    sources: Seq<Seq<char>>,
    ty: LintItem,
    name: Seq<char>,
) -> Seq<FindingView>
    decreases sources.len(),
{
    if sources.len() == 0 {
        Seq::empty()
    } else {
        dangling(common, sources.drop_last(), ty, name) + if common.contains(sources.last()) {
            Seq::<FindingView>::empty()
        } else {
            seq![(ty, name, undefined(sources.last()))]
        }
    }
}

/// A reference to a source that no file declares is reported, by its name.
pub proof fn lemma_undeclared_is_reported(
    common: Seq<Seq<char>>,
    sources: Seq<Seq<char>>,
    ty: LintItem,
    name: Seq<char>,
    k: int,
)
    requires
        0 <= k < sources.len(),
        !common.contains(sources[k]),
    ensures
        dangling(common, sources, ty, name).contains((ty, name, undefined(sources[k]))),
    decreases sources.len(),
{
    let head = dangling(common, sources.drop_last(), ty, name);
    let all = dangling(common, sources, ty, name);
    let finding = (ty, name, undefined(sources[k]));
    if k < sources.len() - 1 {
        lemma_undeclared_is_reported(common, sources.drop_last(), ty, name, k);
        let at = choose|at: int| 0 <= at < head.len() && head[at] == finding;
        assert(all[at] == finding);
    } else {
        assert(all[head.len() as int] == finding);
    }
}

/// Whatever is reported is about a reference to a source that no file
/// declares; where every reference is declared, nothing is reported.
pub proof fn lemma_reported_is_undeclared(
    common: Seq<Seq<char>>,
    sources: Seq<Seq<char>>,
    ty: LintItem,
    name: Seq<char>,
    finding: FindingView,
) -> (k: int)
    requires
        dangling(common, sources, ty, name).contains(finding),
    ensures
        0 <= k < sources.len(),
        !common.contains(sources[k]),
        finding == (ty, name, undefined(sources[k])),
    decreases sources.len(),
{
    let head = dangling(common, sources.drop_last(), ty, name);
    let all = dangling(common, sources, ty, name);
    let at = choose|at: int| 0 <= at < all.len() && all[at] == finding;
    if sources.len() == 0 {
        0
    } else if at < head.len() {
        assert(head[at] == finding);
        lemma_reported_is_undeclared(common, sources.drop_last(), ty, name, finding)
    } else {
        sources.len() - 1
    }
}

impl Config {
    /// Checks the references of one item against the sources of the plan.
    pub fn check_sources(
        &self,
        cache: &CommonCache,
        sources: &Option<Vec<String>>,
        ty: LintItem,
        name: &str,
    ) -> (out: Vec<(LintItem, String, LintResult)>)
        ensures
            findings_view(out@) == dangling(cache.names(), references(*sources), ty, name@),
    {
        let mut out: Vec<(LintItem, String, LintResult)> = Vec::new();
        if let Some(sources) = sources {
            let ghost all = names_view(sources@);
            let mut i: usize = 0;
            while i < sources.len()
                invariant
                    i <= sources.len(),
                    all == names_view(sources@),
                    findings_view(out@) == dangling(cache.names(), all.take(i as int), ty, name@),
                decreases sources.len() - i,
            {
                let ghost before = out@;
                proof {
                    assert(all.take(i as int + 1).drop_last() =~= all.take(i as int));
                    assert(all.take(i as int + 1).last() == sources[i as int]@);
                }
                if !has_name(&cache.sources, &sources[i]) {
                    let message = String::from_str("source `").concat(sources[i].as_str()).concat(
                        "` is not defined",
                    );
                    out.push((ty, name.to_owned(), LintResult { message }));
                    assert(findings_view(out@) =~= findings_view(before).push(
                        (ty, name@, undefined(sources[i as int]@)),
                    ));
                } else {
                    assert(findings_view(out@) =~= findings_view(before));
                }
                i = i + 1;
            }
            assert(all.take(i as int) =~= all);
        }
        out
    }
}

impl Rule for Config {
    type Cache = NoCache;

    open spec fn default_level(&self) -> LintLevel {
        LintLevel::Error
    }

    open spec fn item(&self) -> LintItem {
        LintItem::Metric
    }

    open spec fn cached(cache: &NoCache) -> Seq<Seq<char>> {
        Seq::empty()
    }

    open spec fn kept(spec: &Spec) -> Seq<Seq<char>> {
        Seq::empty()
    }

    open spec fn findings(&self, cached: Seq<Seq<char>>, common: Seq<Seq<char>>, spec: &Spec) -> Seq<
        FindingView,
    > {
        gathered(
            entries_of(spec.metrics),
            |entry: (String, Event)|
                dangling(common, references(entry.1.sources), LintItem::Metric, entry.0@),
        ) + gathered(
            entries_of(spec.pageviews),
            |entry: (String, Pageview)|
                dangling(common, references(entry.1.sources), LintItem::Pageview, entry.0@),
        )
    }

    fn level(&self) -> (out: LintLevel) {
        LintLevel::Error
    }

    fn ty(&self) -> (out: LintItem) {
        LintItem::Metric
    }

    fn pre_compute(cache: &mut NoCache, spec: &Spec) {
        assert(Seq::<Seq<char>>::empty() + Seq::<Seq<char>>::empty() =~= Seq::<Seq<char>>::empty());
    }

    fn run(&self, cache: RuleCache<NoCache>, spec: &Spec) -> (out: Vec<
        (LintItem, String, LintResult),
    >) {
        let mut out: Vec<(LintItem, String, LintResult)> = Vec::new();
        let ghost common = cache.common.names();
        let ghost of_metric = |entry: (String, Event)|
            dangling(common, references(entry.1.sources), LintItem::Metric, entry.0@);
        let ghost of_pageview = |entry: (String, Pageview)|
            dangling(common, references(entry.1.sources), LintItem::Pageview, entry.0@);
        if let Some(entries) = &spec.metrics {
            let mut i: usize = 0;
            while i < entries.len()
                invariant
                    i <= entries.len(),
                    common == cache.common.names(),
                    of_metric == |entry: (String, Event)|
                        dangling(common, references(entry.1.sources), LintItem::Metric, entry.0@),
                    findings_view(out@) == gathered(entries@.take(i as int), of_metric),
                decreases entries.len() - i,
            {
                let ghost before = out@;
                let mut found = self.check_sources(
                    cache.common,
                    &entries[i].1.sources,
                    LintItem::Metric,
                    entries[i].0.as_str(),
                );
                let ghost added = found@;
                out.append(&mut found);
                proof {
                    assert(entries@.take(i as int + 1).drop_last() =~= entries@.take(i as int));
                    assert(findings_view(out@) =~= findings_view(before) + findings_view(added));
                }
                i = i + 1;
            }
            assert(entries@.take(i as int) =~= entries@);
        }
        let ghost first = out@;
        if let Some(entries) = &spec.pageviews {
            let mut i: usize = 0;
            while i < entries.len()
                invariant
                    i <= entries.len(),
                    common == cache.common.names(),
                    of_pageview == |entry: (String, Pageview)|
                        dangling(common, references(entry.1.sources), LintItem::Pageview, entry.0@),
                    findings_view(out@) == findings_view(first) + gathered(
                        entries@.take(i as int),
                        of_pageview,
                    ),
                decreases entries.len() - i,
            {
                let ghost before = out@;
                let mut found = self.check_sources(
                    cache.common,
                    &entries[i].1.sources,
                    LintItem::Pageview,
                    entries[i].0.as_str(),
                );
                let ghost added = found@;
                out.append(&mut found);
                proof {
                    assert(entries@.take(i as int + 1).drop_last() =~= entries@.take(i as int));
                    assert(findings_view(out@) =~= findings_view(before) + findings_view(added));
                }
                i = i + 1;
            }
            assert(entries@.take(i as int) =~= entries@);
        } else {
            assert(findings_view(out@) =~= findings_view(first) + Seq::<FindingView>::empty());
        }
        out
    }
}

} // verus!
