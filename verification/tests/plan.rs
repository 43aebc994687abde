use indexmap::IndexMap;
use ods::lint::rules::uses_name_case::{Case, Config as NameCase};
use ods::lint::rules::{RuleEntry, RulesConfig};
use ods::lint::{FileReport, Lint, LintError, LintItem, LintLevel, LintResult, Summary};
use ods::schema::spec::{Event, Source, Spec};

fn empty_spec() -> Spec {
    Spec { lint: None, metrics: None, pageviews: None, sources: None }
}

fn with_metric(name: &str) -> Spec {
    let mut spec = empty_spec();
    spec.metrics = Some(vec![(
        String::from(name),
        Event { description: Some(String::from("described")), sources: None },
    )]);
    spec
}

fn with_source(name: &str) -> Spec {
    let mut spec = empty_spec();
    spec.sources =
        Some(vec![(String::from(name), Source { description: Some(String::from("described")) })]);
    spec
}

fn snake_case(level: LintLevel) -> RulesConfig {
    RulesConfig {
        uses_name_case: Some(RuleEntry {
            level: Some(level),
            config: NameCase { metric: Some(Case::SnakeCase), pageview: None },
        }),
        ..RulesConfig::default()
    }
}

fn lints(config: RulesConfig) -> Spec {
    let mut spec = empty_spec();
    spec.lint = Some(config);
    spec
}

fn lint(files: Vec<&str>, no_fail: bool) -> Lint {
    Lint { files: files.into_iter().map(String::from).collect(), no_fail }
}

fn names(files: &[(String, Spec)]) -> Vec<&str> {
    files.iter().map(|(name, _)| name.as_str()).collect()
}

fn report_of(summary: Summary) -> FileReport {
    FileReport { name: String::from("file.yaml"), report: IndexMap::new(), summary }
}

fn result(level: LintLevel) -> (LintItem, String, LintLevel, LintResult) {
    (LintItem::Metric, String::from("m"), level, LintResult { message: String::from("said") })
}

#[test]
fn every_file_is_linted_where_none_is_asked_for() {
    let files = vec![
        (String::from("b.yaml"), empty_spec()),
        (String::from("a.yaml"), empty_spec()),
    ];
    let chosen = lint(vec![], false).select(files).unwrap();
    assert_eq!(names(&chosen), vec!["b.yaml", "a.yaml"]);
}

#[test]
fn chosen_files_keep_the_order_of_the_plan() {
    let files = vec![
        (String::from("c.yaml"), empty_spec()),
        (String::from("sub/b.yaml"), empty_spec()),
        (String::from("a.yaml"), empty_spec()),
    ];
    let chosen = lint(vec!["a.yaml", "c.yaml", "a.yaml"], false).select(files).unwrap();
    assert_eq!(names(&chosen), vec!["c.yaml", "a.yaml"]);
}

#[test]
fn a_file_outside_the_plan_is_an_error() {
    let files = vec![(String::from("a.yaml"), empty_spec())];
    let error = lint(vec!["a.yaml", "missing.yaml", "gone.yaml"], false).select(files);
    assert_eq!(error.unwrap_err(), LintError::UnableToFind { file: 1 });
}

#[test]
fn nothing_can_be_chosen_from_an_empty_plan() {
    assert!(lint(vec![], false).select(Vec::new()).unwrap().is_empty());
    let error = lint(vec!["a.yaml"], false).select(Vec::new());
    assert_eq!(error.unwrap_err(), LintError::UnableToFind { file: 0 });
}

#[test]
fn the_lints_file_configures_the_plan() {
    for name in ["lints.json", "lints.yaml", "lints.yml"] {
        let files = vec![
            (String::from("a.yaml"), lints(snake_case(LintLevel::Error))),
            (String::from(name), lints(snake_case(LintLevel::Warning))),
        ];
        let config = Lint::lint_file_config(&files).unwrap();
        assert_eq!(config.uses_name_case.unwrap().level, Some(LintLevel::Warning));
    }
}

#[test]
fn only_the_first_lints_file_is_asked() {
    let files = vec![
        (String::from("lints.yml"), empty_spec()),
        (String::from("lints.json"), lints(snake_case(LintLevel::Warning))),
    ];
    assert!(Lint::lint_file_config(&files).is_none());
    let files = vec![
        (String::from("lints.yaml"), lints(snake_case(LintLevel::Off))),
        (String::from("lints.json"), lints(snake_case(LintLevel::Warning))),
    ];
    let config = Lint::lint_file_config(&files).unwrap();
    assert_eq!(config.uses_name_case.unwrap().level, Some(LintLevel::Off));
}

#[test]
fn other_names_do_not_configure_the_plan() {
    let files = vec![
        (String::from("lints.toml"), lints(snake_case(LintLevel::Warning))),
        (String::from("sub/lints.yaml"), lints(snake_case(LintLevel::Warning))),
        (String::from("Lints.yaml"), lints(snake_case(LintLevel::Warning))),
    ];
    assert!(Lint::lint_file_config(&files).is_none());
    assert!(Lint::lint_file_config(&Vec::new()).is_none());
}

#[test]
fn warnings_and_errors_are_counted() {
    let results = vec![
        result(LintLevel::Error),
        result(LintLevel::Warning),
        result(LintLevel::Off),
        result(LintLevel::Error),
        result(LintLevel::Error),
    ];
    assert_eq!(Summary::of(&results), Summary { warnings: 1, errors: 3 });
    assert_eq!(Summary::of(&Vec::new()), Summary { warnings: 0, errors: 0 });
}

#[test]
fn every_file_of_the_plan_gets_its_report() {
    let files = vec![
        (String::from("lints.yaml"), lints(snake_case(LintLevel::Warning))),
        (String::from("good.yaml"), with_metric("sign_up")),
        (String::from("bad.yaml"), with_metric("Sign Up")),
    ];
    let reports = Lint::check(&files);
    let seen: Vec<&str> = reports.iter().map(|r| r.name.as_str()).collect();
    assert_eq!(seen, vec!["lints.yaml", "good.yaml", "bad.yaml"]);
    assert!(reports[0].report.is_empty());
    assert!(reports[1].report.is_empty());
    assert_eq!(reports[1].summary, Summary { warnings: 0, errors: 0 });
    assert_eq!(reports[2].summary, Summary { warnings: 1, errors: 0 });
    let said = &reports[2].report[&LintItem::Metric]["Sign Up"];
    assert_eq!(said.len(), 1);
    assert_eq!(said[0].0, LintLevel::Warning);
    assert_eq!(said[0].1.message, "name is not in snake_case");
}

#[test]
fn a_file_lays_its_own_configuration_over_the_plans() {
    let mut own = with_metric("Sign Up");
    own.lint = Some(RulesConfig {
        uses_name_case: Some(RuleEntry { level: Some(LintLevel::Error), config: NameCase::default() }),
        ..RulesConfig::default()
    });
    let files = vec![
        (String::from("lints.yaml"), lints(snake_case(LintLevel::Warning))),
        (String::from("own.yaml"), own),
    ];
    let reports = Lint::check(&files);
    assert!(reports[1].report.is_empty());
    assert_eq!(reports[1].summary, Summary { warnings: 0, errors: 0 });
}

#[test]
fn duplicates_are_found_across_the_files_of_a_plan() {
    let files = vec![
        (String::from("one.yaml"), with_source("a")),
        (String::from("two.yaml"), with_source("a")),
        (String::from("three.yaml"), with_source("b")),
    ];
    let reports = Lint::check(&files);
    assert_eq!(reports[0].summary, Summary { warnings: 0, errors: 1 });
    assert_eq!(reports[1].summary, Summary { warnings: 0, errors: 1 });
    assert_eq!(reports[2].summary, Summary { warnings: 0, errors: 0 });
    assert_eq!(reports[0].report[&LintItem::Source]["a"][0].1.message, "source name is duplicated");
}

#[test]
fn files_that_are_not_chosen_are_not_part_of_the_run() {
    let files = vec![
        (String::from("lints.yaml"), lints(snake_case(LintLevel::Warning))),
        (String::from("one.yaml"), with_source("a")),
        (String::from("two.yaml"), with_source("a")),
        (String::from("three.yaml"), with_metric("sign_up")),
    ];
    let reports = lint(vec!["one.yaml", "three.yaml"], false).run(files).unwrap();
    let seen: Vec<&str> = reports.iter().map(|r| r.name.as_str()).collect();
    assert_eq!(seen, vec!["one.yaml", "three.yaml"]);
    assert!(reports[0].report.is_empty());
    assert_eq!(reports[1].summary, Summary { warnings: 0, errors: 1 });
    assert_eq!(
        reports[1].report[&LintItem::Metric]["sign_up"][0].1.message,
        "name is not in Title Case"
    );
}

#[test]
fn a_run_stops_at_a_file_that_the_plan_lacks() {
    let files = vec![(String::from("one.yaml"), with_source("a"))];
    let error = lint(vec!["two.yaml"], true).run(files).unwrap_err();
    assert_eq!(error, LintError::UnableToFind { file: 0 });
}

#[test]
fn a_run_of_an_empty_plan_reports_nothing() {
    assert!(lint(vec![], false).run(Vec::new()).unwrap().is_empty());
    assert!(Lint::check(&Vec::new()).is_empty());
}

#[test]
fn totals_add_up() {
    let reports = vec![
        report_of(Summary { warnings: 1, errors: 2 }),
        report_of(Summary { warnings: 0, errors: 0 }),
        report_of(Summary { warnings: 3, errors: 4 }),
    ];
    assert_eq!(Lint::totals(&reports), Some(Summary { warnings: 4, errors: 6 }));
    assert_eq!(Lint::totals(&Vec::new()), Some(Summary { warnings: 0, errors: 0 }));
}

#[test]
fn totals_that_do_not_fit_are_not_given() {
    let reports = vec![
        report_of(Summary { warnings: usize::MAX, errors: 0 }),
        report_of(Summary { warnings: 1, errors: 0 }),
    ];
    assert_eq!(Lint::totals(&reports), None);
    let reports = vec![
        report_of(Summary { warnings: 0, errors: usize::MAX - 1 }),
        report_of(Summary { warnings: 0, errors: 1 }),
    ];
    assert_eq!(Lint::totals(&reports), Some(Summary { warnings: 0, errors: usize::MAX }));
}

#[test]
fn only_errors_fail_a_run() {
    let strict = lint(vec![], false);
    assert!(strict.failed(&Summary { warnings: 0, errors: 1 }));
    assert!(!strict.failed(&Summary { warnings: 5, errors: 0 }));
    assert!(!strict.failed(&Summary { warnings: 0, errors: 0 }));
}

#[test]
fn errors_can_be_waved_through() {
    let lenient = lint(vec![], true);
    assert!(!lenient.failed(&Summary { warnings: 0, errors: 1 }));
    assert!(!lenient.failed(&Summary { warnings: 1, errors: 0 }));
}

#[test]
fn a_file_with_distinct_names_is_well_formed() {
    let mut spec = with_source("a");
    spec.metrics = Some(vec![
        (String::from("a"), Event { description: None, sources: None }),
        (String::from("b"), Event { description: None, sources: None }),
    ]);
    assert!(spec.is_wf());
    assert!(empty_spec().is_wf());
}

#[test]
fn a_file_with_a_repeated_name_is_not_well_formed() {
    let mut spec = empty_spec();
    spec.sources = Some(vec![
        (String::from("a"), Source { description: None }),
        (String::from("b"), Source { description: None }),
        (String::from("a"), Source { description: None }),
    ]);
    assert!(!spec.is_wf());
    assert!(!ods::schema::spec::distinct_names(&spec.sources));
    assert!(ods::schema::spec::distinct_names(&spec.metrics));
}

#[test]
fn levels_are_ordered_by_severity() {
    assert!(LintLevel::Off < LintLevel::Warning);
    assert!(LintLevel::Warning < LintLevel::Error);
}

#[test]
fn a_file_is_built_entry_by_entry() {
    let mut spec = Spec::new();
    assert!(spec.lint.is_none() && spec.metrics.is_none());
    assert!(spec.pageviews.is_none() && spec.sources.is_none());
    assert!(spec.declare_source(String::from("web"), Source { description: None }));
    assert!(spec.declare_source(String::from("app"), Source { description: None }));
    assert!(spec.declare_metric(
        String::from("web"),
        Event { description: None, sources: None }
    ));
    assert!(spec.declare_pageview(
        String::from("home"),
        ods::schema::spec::Pageview { description: None, sources: None }
    ));
    assert_eq!(names_of(spec.sources.as_ref().unwrap()), vec!["web", "app"]);
    assert_eq!(spec.metrics.as_ref().unwrap().len(), 1);
    assert_eq!(spec.pageviews.as_ref().unwrap()[0].0, "home");
    assert!(spec.is_wf());
}

#[test]
fn a_name_that_is_taken_keeps_its_entry() {
    let mut spec = Spec::new();
    let first = Source { description: Some(String::from("first")) };
    let second = Source { description: Some(String::from("second")) };
    assert!(spec.declare_source(String::from("web"), first));
    assert!(!spec.declare_source(String::from("web"), second));
    let sources = spec.sources.as_ref().unwrap();
    assert_eq!(sources.len(), 1);
    assert_eq!(sources[0].1.description.as_deref(), Some("first"));
    assert!(spec.is_wf());
}

fn names_of<T>(table: &[(String, T)]) -> Vec<&str> {
    table.iter().map(|(name, _)| name.as_str()).collect()
}
