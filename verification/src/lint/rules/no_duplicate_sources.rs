//! No source name is declared twice in the plan.

use vstd::prelude::*;

use crate::lint::rules::cache::{count_name, occurrences, RuleCache};
use crate::lint::rules::{gathered, NoCache, Rule};
use crate::lint::{findings_view, FindingView, LintItem, LintLevel, LintResult};
use crate::schema::spec::{entries_of, Source, Spec};

verus! {

/// The rule has no settings of its own.
#[derive(Debug, Clone, Copy, PartialEq, Eq, Structural)]
pub struct Config {}

impl Default for Config {
    fn default() -> (out: Self)
        ensures
            out == (Config {  }),
    {
        Config {  }
    }
}

/// What the rule finds in one source: a name that the plan holds more than
/// once, in this file or another.
pub open spec fn duplicated(common: Seq<Seq<char>>, entry: (String, Source)) -> Seq<FindingView> {
    if occurrences(common, entry.0@) > 1 {
        seq![(LintItem::Source, entry.0@, "source name is duplicated"@)]
    } else {
        Seq::empty()
    }
}

impl Rule for Config {
    type Cache = NoCache;

    open spec fn default_level(&self) -> LintLevel {
        LintLevel::Error
    }

    open spec fn item(&self) -> LintItem {
        LintItem::Source
    }

    open spec fn cached(cache: &NoCache) -> Seq<Seq<char>> {
        Seq::empty()
    }

    open spec fn kept(spec: &Spec) -> Seq<Seq<char>> {
        Seq::empty()
    }

    open spec fn findings(&self, cached: Seq<Seq<char>>, common: Seq<Seq<char>>, spec: &Spec) -> Seq<
        FindingView,
    > {
        gathered(entries_of(spec.sources), |entry: (String, Source)| duplicated(common, entry))
    }

    fn level(&self) -> (out: LintLevel) {
        LintLevel::Error
    }

    fn ty(&self) -> (out: LintItem) {
        LintItem::Source
    }

    fn pre_compute(cache: &mut NoCache, spec: &Spec) {
        assert(Seq::<Seq<char>>::empty() + Seq::<Seq<char>>::empty() =~= Seq::<Seq<char>>::empty());
    }

    fn run(&self, cache: RuleCache<NoCache>, spec: &Spec) -> (out: Vec<
        (LintItem, String, LintResult),
    >) {
        let mut out: Vec<(LintItem, String, LintResult)> = Vec::new();
        let ghost common = cache.common.names();
        let ghost each = |entry: (String, Source)| duplicated(common, entry);
        if let Some(entries) = &spec.sources {
            let mut i: usize = 0;
            while i < entries.len()
                invariant
                    i <= entries.len(),
                    common == cache.common.names(),
                    each == |entry: (String, Source)| duplicated(common, entry),
                    findings_view(out@) == gathered(entries@.take(i as int), each),
                decreases entries.len() - i,
            {
                let ghost before = out@;
                proof {
                    assert(entries@.take(i as int + 1).drop_last() =~= entries@.take(i as int));
                }
                if count_name(&cache.common.sources, &entries[i].0) > 1 {
                    let message = String::from_str("source name is duplicated");
                    out.push((LintItem::Source, entries[i].0.clone(), LintResult { message }));
                }
                assert(findings_view(out@) =~= findings_view(before) + duplicated(
                    common,
                    entries[i as int],
                ));
                i = i + 1;
            }
            assert(entries@.take(i as int) =~= entries@);
        }
        out
    }
}

} // verus!
