use ods::lint::rules::cache::{count_name, extend_names, has_name, CommonCache, RuleCache};
use ods::lint::rules::uses_name_case::Case;
use ods::lint::rules::{
    needs_explicit_sources, needs_metric_description, needs_source_description,
    no_duplicate_metrics, no_duplicate_pageviews, no_duplicate_sources, uses_name_case, Rule,
};
use ods::lint::{LintItem, LintLevel, LintResult};
use ods::schema::spec::{Event, Pageview, Source, Spec};

fn event(description: Option<&str>, sources: Option<Vec<&str>>) -> Event {
    Event {
        description: description.map(String::from),
        sources: sources.map(|names| names.into_iter().map(String::from).collect()),
    }
}

fn pageview(description: Option<&str>, sources: Option<Vec<&str>>) -> Pageview {
    Pageview {
        description: description.map(String::from),
        sources: sources.map(|names| names.into_iter().map(String::from).collect()),
    }
}

fn source(description: Option<&str>) -> Source {
    Source { description: description.map(String::from) }
}

fn empty_spec() -> Spec {
    Spec { lint: None, metrics: None, pageviews: None, sources: None }
}

fn common(names: Vec<&str>) -> CommonCache {
    CommonCache { sources: names.into_iter().map(String::from).collect() }
}

fn plain(findings: Vec<(LintItem, String, LintResult)>) -> Vec<(LintItem, String, String)> {
    findings.into_iter().map(|(item, name, result)| (item, name, result.message)).collect()
}

fn finding(item: LintItem, name: &str, message: &str) -> (LintItem, String, String) {
    (item, String::from(name), String::from(message))
}

#[test]
fn default_levels() {
    assert_eq!(needs_explicit_sources::Config {}.level(), LintLevel::Error);
    assert_eq!(needs_metric_description::Config {}.level(), LintLevel::Warning);
    assert_eq!(needs_source_description::Config {}.level(), LintLevel::Warning);
    assert_eq!(no_duplicate_metrics::Config {}.level(), LintLevel::Error);
    assert_eq!(no_duplicate_pageviews::Config {}.level(), LintLevel::Error);
    assert_eq!(no_duplicate_sources::Config {}.level(), LintLevel::Error);
    assert_eq!(uses_name_case::Config::default().level(), LintLevel::Error);
}

#[test]
fn item_kinds() {
    assert_eq!(needs_explicit_sources::Config {}.ty(), LintItem::Metric);
    assert_eq!(needs_metric_description::Config {}.ty(), LintItem::Metric);
    assert_eq!(needs_source_description::Config {}.ty(), LintItem::Source);
    assert_eq!(no_duplicate_metrics::Config {}.ty(), LintItem::Metric);
    assert_eq!(no_duplicate_pageviews::Config {}.ty(), LintItem::Pageview);
    assert_eq!(no_duplicate_sources::Config {}.ty(), LintItem::Source);
    assert_eq!(uses_name_case::Config::default().ty(), LintItem::Metric);
}

#[test]
fn names_are_appended_in_order() {
    let mut names = vec![String::from("first")];
    let table = Some(vec![
        (String::from("b"), source(None)),
        (String::from("a"), source(None)),
    ]);
    extend_names(&mut names, &table);
    assert_eq!(names, vec!["first", "b", "a"]);
    let absent: Option<Vec<(String, Source)>> = None;
    extend_names(&mut names, &absent);
    assert_eq!(names, vec!["first", "b", "a"]);
}

#[test]
fn names_are_counted() {
    let names: Vec<String> = ["a", "b", "a", "c", "a"].iter().map(|n| n.to_string()).collect();
    assert_eq!(count_name(&names, &String::from("a")), 3);
    assert_eq!(count_name(&names, &String::from("b")), 1);
    assert_eq!(count_name(&names, &String::from("d")), 0);
    assert_eq!(count_name(&Vec::new(), &String::from("a")), 0);
}

#[test]
fn names_are_found() {
    let names: Vec<String> = ["a", "b"].iter().map(|n| n.to_string()).collect();
    assert!(has_name(&names, &String::from("b")));
    assert!(!has_name(&names, &String::from("B")));
    assert!(!has_name(&Vec::new(), &String::from("a")));
}

#[test]
fn common_cache_collects_sources_of_every_file() {
    let mut cache = CommonCache::new();
    assert!(cache.sources.is_empty());
    let mut first = empty_spec();
    first.sources = Some(vec![(String::from("web"), source(None))]);
    let mut second = empty_spec();
    second.sources =
        Some(vec![(String::from("ios"), source(None)), (String::from("web"), source(None))]);
    cache.pre_compute(&first);
    cache.pre_compute(&empty_spec());
    cache.pre_compute(&second);
    assert_eq!(cache.sources, vec!["web", "ios", "web"]);
}

#[test]
fn a_missing_metric_description_is_reported() {
    let mut spec = empty_spec();
    spec.metrics = Some(vec![
        (String::from("with"), event(Some("described"), None)),
        (String::from("without"), event(None, None)),
        (String::from("empty"), event(Some(""), None)),
    ]);
    let shared = common(vec![]);
    let found = needs_metric_description::Config {}
        .run(RuleCache { common: &shared, rule: &() }, &spec);
    assert_eq!(plain(found), vec![finding(LintItem::Metric, "without", "description is missing")]);
}

#[test]
fn a_missing_source_description_is_reported() {
    let mut spec = empty_spec();
    spec.sources = Some(vec![
        (String::from("web"), source(None)),
        (String::from("ios"), source(Some("the app"))),
        (String::from("tv"), source(None)),
    ]);
    let shared = common(vec![]);
    let found = needs_source_description::Config {}
        .run(RuleCache { common: &shared, rule: &() }, &spec);
    assert_eq!(
        plain(found),
        vec![
            finding(LintItem::Source, "web", "description is missing"),
            finding(LintItem::Source, "tv", "description is missing"),
        ]
    );
}

#[test]
fn an_unknown_source_is_reported_once() {
    let shared = common(vec!["web"]);
    let found = needs_explicit_sources::Config {}.check_sources(
        &shared,
        &Some(vec![String::from("unknown")]),
        LintItem::Metric,
        "signup",
    );
    assert_eq!(
        plain(found),
        vec![finding(LintItem::Metric, "signup", "source `unknown` is not defined")]
    );
}

#[test]
fn a_declared_source_is_not_reported() {
    let shared = common(vec!["web"]);
    let rule = needs_explicit_sources::Config {};
    let found =
        rule.check_sources(&shared, &Some(vec![String::from("web")]), LintItem::Metric, "signup");
    assert!(found.is_empty());
    assert!(rule.check_sources(&shared, &None, LintItem::Metric, "signup").is_empty());
    assert!(rule.check_sources(&shared, &Some(vec![]), LintItem::Metric, "signup").is_empty());
}

#[test]
fn every_dangling_reference_is_its_own_finding() {
    let shared = common(vec!["web"]);
    let found = needs_explicit_sources::Config {}.check_sources(
        &shared,
        &Some(vec![String::from("tv"), String::from("web"), String::from("tv")]),
        LintItem::Pageview,
        "home",
    );
    assert_eq!(
        plain(found),
        vec![
            finding(LintItem::Pageview, "home", "source `tv` is not defined"),
            finding(LintItem::Pageview, "home", "source `tv` is not defined"),
        ]
    );
}

#[test]
fn references_of_metrics_come_before_those_of_pageviews() {
    let mut spec = empty_spec();
    spec.metrics = Some(vec![
        (String::from("signup"), event(None, Some(vec!["web", "tv"]))),
        (String::from("login"), event(None, None)),
    ]);
    spec.pageviews = Some(vec![(String::from("home"), pageview(None, Some(vec!["radio"])))]);
    let shared = common(vec!["web"]);
    let found = needs_explicit_sources::Config {}
        .run(RuleCache { common: &shared, rule: &() }, &spec);
    assert_eq!(
        plain(found),
        vec![
            finding(LintItem::Metric, "signup", "source `tv` is not defined"),
            finding(LintItem::Pageview, "home", "source `radio` is not defined"),
        ]
    );
}

#[test]
fn a_source_of_another_file_counts_as_declared() {
    let mut declaring = empty_spec();
    declaring.sources = Some(vec![(String::from("web"), source(None))]);
    let mut referring = empty_spec();
    referring.metrics = Some(vec![(String::from("signup"), event(None, Some(vec!["web"])))]);
    let mut shared = CommonCache::new();
    shared.pre_compute(&declaring);
    shared.pre_compute(&referring);
    let found = needs_explicit_sources::Config {}
        .run(RuleCache { common: &shared, rule: &() }, &referring);
    assert!(found.is_empty());
}

#[test]
fn duplicate_metrics_are_reported_at_every_multiplicity() {
    let mut first = empty_spec();
    first.metrics = Some(vec![
        (String::from("signup"), event(None, None)),
        (String::from("login"), event(None, None)),
    ]);
    let mut second = empty_spec();
    second.metrics = Some(vec![(String::from("signup"), event(None, None))]);
    let mut third = empty_spec();
    third.metrics = Some(vec![(String::from("signup"), event(None, None))]);
    let mut cache = no_duplicate_metrics::Cache::new();
    for spec in [&first, &second, &third] {
        <no_duplicate_metrics::Config as Rule>::pre_compute(&mut cache, spec);
    }
    assert_eq!(cache.metrics, vec!["signup", "login", "signup", "signup"]);
    let shared = common(vec![]);
    for spec in [&first, &second, &third] {
        let found = no_duplicate_metrics::Config {}
            .run(RuleCache { common: &shared, rule: &cache }, spec);
        assert_eq!(
            plain(found),
            vec![finding(LintItem::Metric, "signup", "metric name is duplicated")]
        );
    }
}

#[test]
fn duplicate_pageviews_are_reported() {
    let mut first = empty_spec();
    first.pageviews = Some(vec![(String::from("home"), pageview(None, None))]);
    let mut second = empty_spec();
    second.pageviews = Some(vec![
        (String::from("about"), pageview(None, None)),
        (String::from("home"), pageview(None, None)),
    ]);
    let mut cache = no_duplicate_pageviews::Cache::new();
    <no_duplicate_pageviews::Config as Rule>::pre_compute(&mut cache, &first);
    <no_duplicate_pageviews::Config as Rule>::pre_compute(&mut cache, &second);
    assert_eq!(cache.pageviews, vec!["home", "about", "home"]);
    let shared = common(vec![]);
    let found = no_duplicate_pageviews::Config {}
        .run(RuleCache { common: &shared, rule: &cache }, &second);
    assert_eq!(
        plain(found),
        vec![finding(LintItem::Pageview, "home", "pageview name is duplicated")]
    );
}

#[test]
fn duplicate_sources_are_reported_in_both_files() {
    let mut first = empty_spec();
    first.sources =
        Some(vec![(String::from("a"), source(None)), (String::from("b"), source(None))]);
    let mut second = empty_spec();
    second.sources = Some(vec![(String::from("a"), source(None))]);
    let mut shared = CommonCache::new();
    shared.pre_compute(&first);
    shared.pre_compute(&second);
    let rule = no_duplicate_sources::Config {};
    let in_first = rule.run(RuleCache { common: &shared, rule: &() }, &first);
    let in_second = rule.run(RuleCache { common: &shared, rule: &() }, &second);
    let expected = vec![finding(LintItem::Source, "a", "source name is duplicated")];
    assert_eq!(plain(in_first), expected);
    assert_eq!(plain(in_second), expected);
}

#[test]
fn a_single_source_is_not_a_duplicate() {
    let mut spec = empty_spec();
    spec.sources = Some(vec![(String::from("b"), source(None))]);
    let mut shared = CommonCache::new();
    shared.pre_compute(&spec);
    let found = no_duplicate_sources::Config {}
        .run(RuleCache { common: &shared, rule: &() }, &spec);
    assert!(found.is_empty());
}

#[test]
fn names_default_to_title_case() {
    let mut spec = empty_spec();
    spec.metrics = Some(vec![
        (String::from("Checkout Started"), event(None, None)),
        (String::from("checkout_started"), event(None, None)),
    ]);
    spec.pageviews = Some(vec![(String::from("homePage"), pageview(None, None))]);
    let shared = common(vec![]);
    let found = uses_name_case::Config::default()
        .run(RuleCache { common: &shared, rule: &() }, &spec);
    assert_eq!(
        plain(found),
        vec![
            finding(LintItem::Metric, "checkout_started", "name is not in Title Case"),
            finding(LintItem::Pageview, "homePage", "name is not in Title Case"),
        ]
    );
}

#[test]
fn casing_mismatch() {
    let mut spec = empty_spec();
    spec.metrics = Some(vec![
        (String::from("fooBar"), event(None, None)),
        (String::from("FooBar"), event(None, None)),
    ]);
    let shared = common(vec![]);
    let rule = uses_name_case::Config { metric: Some(Case::PascalCase), pageview: None };
    let found = plain(rule.run(RuleCache { common: &shared, rule: &() }, &spec));
    assert_eq!(found.len(), 1);
    assert_eq!(found[0].0, LintItem::Metric);
    assert_eq!(found[0].1, "fooBar");
    assert!(found[0].2.contains("PascalCase"));
    assert_eq!(found[0].2, "name is not in PascalCase");
}

#[test]
fn each_kind_of_name_has_its_own_scheme() {
    let mut spec = empty_spec();
    spec.metrics = Some(vec![(String::from("checkout_started"), event(None, None))]);
    spec.pageviews = Some(vec![
        (String::from("checkout_started"), pageview(None, None)),
        (String::from("home-page"), pageview(None, None)),
    ]);
    let shared = common(vec![]);
    let rule =
        uses_name_case::Config { metric: Some(Case::SnakeCase), pageview: Some(Case::KebabCase) };
    let found = rule.run(RuleCache { common: &shared, rule: &() }, &spec);
    assert_eq!(
        plain(found),
        vec![finding(LintItem::Pageview, "checkout_started", "name is not in kebab-case")]
    );
}

#[test]
fn rules_without_a_cache_keep_nothing() {
    let mut spec = empty_spec();
    spec.metrics = Some(vec![(String::from("signup"), event(None, None))]);
    <needs_explicit_sources::Config as Rule>::pre_compute(&mut (), &spec);
    <needs_metric_description::Config as Rule>::pre_compute(&mut (), &spec);
    <needs_source_description::Config as Rule>::pre_compute(&mut (), &spec);
    <no_duplicate_sources::Config as Rule>::pre_compute(&mut (), &spec);
    <uses_name_case::Config as Rule>::pre_compute(&mut (), &spec);
}

#[test]
fn an_empty_file_has_no_findings() {
    let spec = empty_spec();
    let shared = common(vec![]);
    let metrics = no_duplicate_metrics::Cache::new();
    let pageviews = no_duplicate_pageviews::Cache::new();
    assert!(needs_explicit_sources::Config {}
        .run(RuleCache { common: &shared, rule: &() }, &spec)
        .is_empty());
    assert!(needs_metric_description::Config {}
        .run(RuleCache { common: &shared, rule: &() }, &spec)
        .is_empty());
    assert!(needs_source_description::Config {}
        .run(RuleCache { common: &shared, rule: &() }, &spec)
        .is_empty());
    assert!(no_duplicate_metrics::Config {}
        .run(RuleCache { common: &shared, rule: &metrics }, &spec)
        .is_empty());
    assert!(no_duplicate_pageviews::Config {}
        .run(RuleCache { common: &shared, rule: &pageviews }, &spec)
        .is_empty());
    assert!(no_duplicate_sources::Config {}
        .run(RuleCache { common: &shared, rule: &() }, &spec)
        .is_empty());
    assert!(uses_name_case::Config::default()
        .run(RuleCache { common: &shared, rule: &() }, &spec)
        .is_empty());
}
