//! Every source says what it is.

use vstd::prelude::*;

use crate::lint::rules::cache::RuleCache;
use crate::lint::rules::{gathered, NoCache, Rule};
use crate::lint::{findings_view, FindingView, LintItem, LintLevel, LintResult};
use crate::schema::spec::{entries_of, Source, Spec};

verus! {

/// The rule has no settings of its own.
#[derive(Debug, Clone, Copy, PartialEq, Eq, Structural)]
pub struct Config {}

impl Default for Config {
    fn default() -> (out: Self)
        ensures
            out == (Config {  }),
    {
        Config {  }
    }
}

/// What the rule finds in one source: a description that is absent. One
/// that is there and empty passes.
pub open spec fn missing(entry: (String, Source)) -> Seq<FindingView> {
    if entry.1.description is None {
        seq![(LintItem::Source, entry.0@, "description is missing"@)]
    } else {
        Seq::empty()
    }
}

impl Rule for Config {
    type Cache = NoCache;

    open spec fn default_level(&self) -> LintLevel {
        LintLevel::Warning
    }

    open spec fn item(&self) -> LintItem {
        LintItem::Source
    }

    open spec fn cached(cache: &NoCache) -> Seq<Seq<char>> {
        Seq::empty()
    }

    open spec fn kept(spec: &Spec) -> Seq<Seq<char>> {
        Seq::empty()
    }

    open spec fn findings(&self, cached: Seq<Seq<char>>, common: Seq<Seq<char>>, spec: &Spec) -> Seq<
        FindingView,
    > {
        gathered(entries_of(spec.sources), |entry: (String, Source)| missing(entry))
    }

    fn level(&self) -> (out: LintLevel) {
        LintLevel::Warning
    }

    fn ty(&self) -> (out: LintItem) {
        LintItem::Source
    }

    fn pre_compute(cache: &mut NoCache, spec: &Spec) {
        assert(Seq::<Seq<char>>::empty() + Seq::<Seq<char>>::empty() =~= Seq::<Seq<char>>::empty());
    }

    fn run(&self, cache: RuleCache<NoCache>, spec: &Spec) -> (out: Vec<
        (LintItem, String, LintResult),
    >) {
        let mut out: Vec<(LintItem, String, LintResult)> = Vec::new();
        let ghost each = |entry: (String, Source)| missing(entry);
        if let Some(entries) = &spec.sources {
            let mut i: usize = 0;
            while i < entries.len()
                invariant
                    i <= entries.len(),
                    each == |entry: (String, Source)| missing(entry),
                    findings_view(out@) == gathered(entries@.take(i as int), each),
                decreases entries.len() - i,
            {
                let ghost before = out@;
                proof {
                    assert(entries@.take(i as int + 1).drop_last() =~= entries@.take(i as int));
                }
                if entries[i].1.description.is_none() {
                    let message = String::from_str("description is missing");
                    out.push((LintItem::Source, entries[i].0.clone(), LintResult { message }));
                    assert(findings_view(out@) =~= findings_view(before) + missing(
                        entries[i as int],
                    ));
                } else {
                    assert(findings_view(out@) =~= findings_view(before) + missing(
                        entries[i as int],
                    ));
                }
                i = i + 1;
            }
            assert(entries@.take(i as int) =~= entries@);
        }
        out
    }
}

} // verus!
