//! Linting a loaded plan: which files are linted, under which configuration,
//! and what is made of the results. The severities and item kinds that the
//! rules speak in are defined here too.

use indexmap::IndexMap;
use vstd::prelude::*;

use crate::lint::report::{aggregate, aggregated, report_entries, results_view, ResultView};
use crate::lint::rules::cache::{has_name, names_view};
use crate::lint::rules::{held, lemma_results_in_plan, results_in, Rules, RulesConfig};
use crate::schema::spec::Spec;

pub mod laws;
pub mod report;
pub mod rules;

verus! {

/// How severe a finding is, from the least to the most severe. `Off`
/// silences a rule for the file that says so.
#[derive(Debug, Clone, Copy, PartialEq, Eq, Structural, PartialOrd, Ord)]
pub enum LintLevel {
    Off,
    Warning,
    Error,
}

/// The kind of named item that a finding is about.
#[derive(Debug, Clone, Copy, PartialEq, Eq, Hash, Structural)]
pub enum LintItem {
    Metric,
    Pageview,
    Source,
}

/// What a rule has to say about one item.
#[derive(Debug)]
pub struct LintResult {
    pub message: String,
}

/// A finding as the contracts see it: item kind, item name, message.
pub type FindingView = (LintItem, Seq<char>, Seq<char>);

impl LintLevel {
    /// The level as configuration files write it.
    pub open spec fn label(self) -> Seq<char> {
        match self {
            LintLevel::Off => "off"@,
            LintLevel::Warning => "warn"@,
            LintLevel::Error => "error"@,
        }
    }

    /// The level as configuration files write it.
    pub fn name(&self) -> (out: &'static str)
        ensures
            out@ == self.label(),
    {
        match self {
            LintLevel::Off => "off",
            LintLevel::Warning => "warn",
            LintLevel::Error => "error",
        }
    }
}

impl LintItem {
    /// The item kind as it is shown to the user.
    pub open spec fn label(self) -> Seq<char> {
        match self {
            LintItem::Metric => "metric"@,
            LintItem::Pageview => "pageview"@,
            LintItem::Source => "source"@,
        }
    }

    /// The item kind as it is shown to the user.
    pub fn name(&self) -> (out: &'static str)
        ensures
            out@ == self.label(),
    {
        match self {
            LintItem::Metric => "metric",
            LintItem::Pageview => "pageview",
            LintItem::Source => "source",
        }
    }
}

/// The view of one finding.
pub open spec fn finding_view(f: (LintItem, String, LintResult)) -> FindingView {
    (f.0, f.1@, f.2.message@)
}

/// The view of a list of findings, in order.
pub open spec fn findings_view(fs: Seq<(LintItem, String, LintResult)>) -> Seq<FindingView> {
    fs.map_values(|f: (LintItem, String, LintResult)| finding_view(f))
}

/// What to lint of a loaded plan, and how to take errors.
#[derive(Debug)]
pub struct Lint {
    /// The files to lint, by the names under which the plan holds them;
    /// every file where none is given.
    pub files: Vec<String>,
    /// Whether a run with errors still counts as a success.
    pub no_fail: bool,
}

/// Why a plan could not be linted.
#[derive(Debug, Clone, Copy, PartialEq, Eq, Structural)]
pub enum LintError {
    /// The plan holds no file of the name asked for at this place of
    /// `Lint::files`.
    UnableToFind { file: usize },
}

/// How many findings were surfaced at each level.
#[derive(Debug, Clone, Copy, PartialEq, Eq, Structural)]
pub struct Summary {
    pub warnings: usize,
    pub errors: usize,
}

/// What linting made of one file.
#[derive(Debug)]
pub struct FileReport {
    pub name: String,
    pub report: IndexMap<LintItem, IndexMap<String, Vec<(LintLevel, LintResult)>>>,
    pub summary: Summary,
}

/// The names of the files of a plan, in loading order.
pub open spec fn file_names(files: Seq<(String, Spec)>) -> Seq<Seq<char>> {
    files.map_values(|file: (String, Spec)| file.0@)
}

/// The files of a plan without their names.
pub open spec fn plan_of<'a>(files: Seq<(String, Spec)>) -> Seq<&'a Spec> {
    files.map_values(|file: (String, Spec)| &file.1)
}

/// Whether a file name marks the file that configures the whole plan.
pub open spec fn is_lints_file(name: Seq<char>) -> bool {
    name == "lints.json"@ || name == "lints.yaml"@ || name == "lints.yml"@
}

/// The configuration of the whole plan: what the first file with a marking
/// name says, if it says anything. Later such files are not asked.
pub open spec fn plan_config(files: Seq<(String, Spec)>) -> Option<RulesConfig>
    decreases files.len(),
{
    if files.len() == 0 {
        None
    } else if is_lints_file(files.first().0@) {
        files.first().1.lint
    } else {
        plan_config(files.drop_first())
    }
}

/// How many of the results have the level.
pub open spec fn count_level(results: Seq<ResultView>, level: LintLevel) -> nat {
    results.filter(|r: ResultView| r.2 == level).len()
}

/// What the summaries of several files add up to at a level. Nothing is
/// surfaced at `Off`, so nothing is counted there.
pub open spec fn total_level(reports: Seq<FileReport>, level: LintLevel) -> nat
    decreases reports.len(),
{
    if reports.len() == 0 {
        0
    } else {
        total_level(reports.drop_last(), level) + match level {
            LintLevel::Warning => reports.last().summary.warnings as nat,
            LintLevel::Error => reports.last().summary.errors as nat,
            LintLevel::Off => 0,
        }
    }
}

/// Tells whether the plan holds a file of the name.
fn holds_file(files: &Vec<(String, Spec)>, name: &String) -> (out: bool)
    ensures
        out == file_names(files@).contains(name@),
{
    let mut i: usize = 0;
    while i < files.len()
        invariant
            i <= files.len(),
            forall|k: int| 0 <= k < i ==> file_names(files@)[k] != name@,
        decreases files.len() - i,
    {
        if files[i].0 == *name {
            assert(file_names(files@)[i as int] == name@);
            return true;
        }
        i = i + 1;
    }
    false
}

impl Summary {
    /// Counts the warnings and the errors among the results of one file.
    pub fn of(results: &Vec<(LintItem, String, LintLevel, LintResult)>) -> (out: Summary)
        ensures
            out.warnings == count_level(results_view(results@), LintLevel::Warning),
            out.errors == count_level(results_view(results@), LintLevel::Error),
    {
        let mut out = Summary { warnings: 0, errors: 0 };
        let ghost all = results_view(results@);
        proof {
            reveal(Seq::filter);
        }
        let mut i: usize = 0;
        while i < results.len()
            invariant
                i <= results.len(),
                all == results_view(results@),
                out.warnings == count_level(all.take(i as int), LintLevel::Warning),
                out.errors == count_level(all.take(i as int), LintLevel::Error),
                out.warnings <= i,
                out.errors <= i,
            decreases results.len() - i,
        {
            proof {
                reveal(Seq::filter);
                assert(all.take(i as int + 1).drop_last() =~= all.take(i as int));
            }
            match results[i].2 {
                LintLevel::Off => {},
                LintLevel::Warning => {
                    out.warnings = out.warnings + 1;
                },
                LintLevel::Error => {
                    out.errors = out.errors + 1;
                },
            }
            i = i + 1;
        }
        assert(all.take(i as int) =~= all);
        out
    }
}

impl Lint {
    /// The files that are linted: all of them where none is asked for, else
    /// those asked for, in the plan's order.
    pub open spec fn selected(&self, files: Seq<(String, Spec)>) -> Seq<(String, Spec)> {
        if self.files@.len() == 0 {
            files
        } else {
            files.filter(|file: (String, Spec)| names_view(self.files@).contains(file.0@))
        }
    }

    /// Picks the files to lint. A name that the plan does not hold is an
    /// error, the first such name in the order of asking.
    pub fn select(&self, files: Vec<(String, Spec)>) -> (out: Result<
        Vec<(String, Spec)>,
        LintError,
    >)
        ensures
            match out {
                Ok(chosen) => {
                    &&& forall|k: int|
                        0 <= k < self.files@.len() ==> file_names(files@).contains(
                            #[trigger] self.files@[k]@,
                        )
                    &&& chosen@ == self.selected(files@)
                },
                Err(LintError::UnableToFind { file }) => {
                    &&& file < self.files@.len()
                    &&& !file_names(files@).contains(self.files@[file as int]@)
                    &&& forall|k: int|
                        0 <= k < file ==> file_names(files@).contains(#[trigger] self.files@[k]@)
                },
            },
    {
        if self.files.len() == 0 {
            return Ok(files);
        }
        let mut w: usize = 0;
        while w < self.files.len()
            invariant
                w <= self.files.len(),
                forall|k: int|
                    0 <= k < w ==> file_names(files@).contains(#[trigger] self.files@[k]@),
            decreases self.files.len() - w,
        {
            if !holds_file(&files, &self.files[w]) {
                return Err(LintError::UnableToFind { file: w });
            }
            w = w + 1;
        }
        let ghost all = files@;
        let ghost wanted = |file: (String, Spec)| names_view(self.files@).contains(file.0@);
        let mut chosen: Vec<(String, Spec)> = Vec::new();
        proof {
            reveal(Seq::filter);
        }
        for file in it: files
            invariant
                all == it.seq(),
                wanted == |file: (String, Spec)| names_view(self.files@).contains(file.0@),
                chosen@ == all.take(it.index() as int).filter(wanted),
        {
            proof {
                reveal(Seq::filter);
                assert(all.take(it.index() + 1).drop_last() =~= all.take(it.index() as int));
            }
            if has_name(&self.files, &file.0) {
                chosen.push(file);
            }
        }
        assert(all.take(all.len() as int) =~= all);
        Ok(chosen)
    }

    /// Finds the configuration of the whole plan among its files.
    pub fn lint_file_config(files: &Vec<(String, Spec)>) -> (out: Option<&RulesConfig>)
        ensures
            held(out) == plan_config(files@),
    {
        let json = String::from_str("lints.json");
        let yaml = String::from_str("lints.yaml");
        let yml = String::from_str("lints.yml");
        assert(files@.skip(0) =~= files@);
        let mut i: usize = 0;
        while i < files.len()
            invariant
                i <= files.len(),
                json@ == "lints.json"@,
                yaml@ == "lints.yaml"@,
                yml@ == "lints.yml"@,
                plan_config(files@) == plan_config(files@.skip(i as int)),
            decreases files.len() - i,
        {
            proof {
                assert(files@.skip(i as int).drop_first() =~= files@.skip(i as int + 1));
            }
            if files[i].0 == json || files[i].0 == yaml || files[i].0 == yml {
                return files[i].1.lint.as_ref();
            }
            i = i + 1;
        }
        None
    }

    /// Lints the files of a plan. Every file is folded into the caches
    /// before the first one is checked; each file is then checked under
    /// its own configuration laid over the plan's.
    pub fn check(files: &Vec<(String, Spec)>) -> (out: Vec<FileReport>)
        ensures
            out@.len() == files@.len(),
            forall|i: int|
                0 <= i < files@.len() ==> {
                    let results = results_in(
                        plan_of(files@),
                        plan_config(files@),
                        &files@[i].1,
                    );
                    &&& (#[trigger] out@[i]).name@ == files@[i].0@
                    &&& report_entries(out@[i].report) == aggregated(results)
                    &&& out@[i].summary.warnings == count_level(results, LintLevel::Warning)
                    &&& out@[i].summary.errors == count_level(results, LintLevel::Error)
                },
    {
        let config = Lint::lint_file_config(files);
        let mut specs: Vec<&Spec> = Vec::new();
        let mut i: usize = 0;
        while i < files.len()
            invariant
                i <= files.len(),
                specs@ == plan_of(files@).take(i as int),
            decreases files.len() - i,
        {
            specs.push(&files[i].1);
            assert(specs@ =~= plan_of(files@).take(i as int + 1));
            i = i + 1;
        }
        assert(specs@ =~= plan_of(files@));
        let cache = Rules::pre_compute(specs);
        let mut out: Vec<FileReport> = Vec::new();
        let mut i: usize = 0;
        while i < files.len()
            invariant
                i <= files.len(),
                out@.len() == i,
                cache.holds(plan_of(files@)),
                held(config) == plan_config(files@),
                forall|k: int|
                    0 <= k < i ==> {
                        let results = results_in(
                            plan_of(files@),
                            plan_config(files@),
                            &files@[k].1,
                        );
                        &&& (#[trigger] out@[k]).name@ == files@[k].0@
                        &&& report_entries(out@[k].report) == aggregated(results)
                        &&& out@[k].summary.warnings == count_level(results, LintLevel::Warning)
                        &&& out@[k].summary.errors == count_level(results, LintLevel::Error)
                    },
            decreases files.len() - i,
        {
            let results = Rules::check(&cache, config, &files[i].1);
            proof {
                lemma_results_in_plan(
                    &cache,
                    plan_of(files@),
                    plan_config(files@),
                    &files@[i as int].1,
                );
            }
            let summary = Summary::of(&results);
            let report = aggregate(results);
            out.push(FileReport { name: files[i].0.clone(), report, summary });
            i = i + 1;
        }
        out
    }

    /// Picks the files to lint and lints them.
    pub fn run(&self, files: Vec<(String, Spec)>) -> (out: Result<Vec<FileReport>, LintError>)
        ensures
            match out {
                Ok(reports) => {
                    let chosen = self.selected(files@);
                    &&& forall|k: int|
                        0 <= k < self.files@.len() ==> file_names(files@).contains(
                            #[trigger] self.files@[k]@,
                        )
                    &&& reports@.len() == chosen.len()
                    &&& forall|i: int|
                        0 <= i < chosen.len() ==> {
                            let results = results_in(
                                plan_of(chosen),
                                plan_config(chosen),
                                &chosen[i].1,
                            );
                            &&& (#[trigger] reports@[i]).name@ == chosen[i].0@
                            &&& report_entries(reports@[i].report) == aggregated(results)
                            &&& reports@[i].summary.warnings == count_level(
                                results,
                                LintLevel::Warning,
                            )
                            &&& reports@[i].summary.errors == count_level(results, LintLevel::Error)
                        }
                },
                Err(LintError::UnableToFind { file }) => {
                    &&& file < self.files@.len()
                    &&& !file_names(files@).contains(self.files@[file as int]@)
                    &&& forall|k: int|
                        0 <= k < file ==> file_names(files@).contains(#[trigger] self.files@[k]@)
                },
            },
    {
        match self.select(files) {
            Ok(chosen) => Ok(Lint::check(&chosen)),
            Err(error) => Err(error),
        }
    }

    /// Adds up the warnings and the errors of the files. There is no sum
    /// where a count does not fit the machine's word.
    pub fn totals(reports: &Vec<FileReport>) -> (out: Option<Summary>)
        ensures
            match out {
                Some(sum) => sum.warnings == total_level(reports@, LintLevel::Warning)
                    && sum.errors == total_level(reports@, LintLevel::Error),
                None => total_level(reports@, LintLevel::Warning) > usize::MAX || total_level(
                    reports@,
                    LintLevel::Error,
                ) > usize::MAX,
            },
    {
        let mut sum = Summary { warnings: 0, errors: 0 };
        let mut i: usize = 0;
        while i < reports.len()
            invariant
                i <= reports.len(),
                sum.warnings == total_level(reports@.take(i as int), LintLevel::Warning),
                sum.errors == total_level(reports@.take(i as int), LintLevel::Error),
            decreases reports.len() - i,
        {
            proof {
                assert(reports@.take(i as int + 1).drop_last() =~= reports@.take(i as int));
            }
            let file = &reports[i].summary;
            if file.warnings > usize::MAX - sum.warnings || file.errors > usize::MAX - sum.errors {
                proof {
                    lemma_total_grows(reports@, i as int + 1, LintLevel::Warning);
                    lemma_total_grows(reports@, i as int + 1, LintLevel::Error);
                }
                return None;
            }
            sum.warnings = sum.warnings + file.warnings;
            sum.errors = sum.errors + file.errors;
            i = i + 1;
        }
        assert(reports@.take(i as int) =~= reports@);
        Some(sum)
    }

    /// Whether the run counts as failed: an error was surfaced, and errors
    /// are not waved through. Warnings never fail a run.
    pub fn failed(&self, summary: &Summary) -> (out: bool)
        ensures
            out == (summary.errors > 0 && !self.no_fail),
    {
        summary.errors > 0 && !self.no_fail
    }
}

/// The total of the first files is never more than the total of all.
proof fn lemma_total_grows(reports: Seq<FileReport>, n: int, level: LintLevel)
    requires
        0 <= n <= reports.len(),
    ensures
        total_level(reports.take(n), level) <= total_level(reports, level),
    decreases reports.len(),
{
    if n == reports.len() {
        assert(reports.take(n) =~= reports);
    } else {
        assert(reports.drop_last().take(n) =~= reports.take(n));
        lemma_total_grows(reports.drop_last(), n, level);
    }
}

} // verus!
