use ods::lint::rules::uses_name_case::{Case, Config as NameCase};
use ods::lint::rules::{needs_metric_description, no_duplicate_sources};
use ods::lint::rules::{RuleEntry, Rules, RulesConfig};
use ods::lint::{LintItem, LintLevel};

fn name_case(level: Option<LintLevel>, metric: Option<Case>) -> Option<RuleEntry<NameCase>> {
    Some(RuleEntry { level, config: NameCase { metric, pageview: None } })
}

#[test]
fn rules_run_in_registry_order() {
    let names: Vec<&str> = Rules::value_variants().iter().map(|rule| rule.name()).collect();
    assert_eq!(
        names,
        vec![
            "needs_explicit_sources",
            "needs_metric_description",
            "needs_source_description",
            "no_duplicate_metrics",
            "no_duplicate_pageviews",
            "no_duplicate_sources",
            "uses_name_case",
        ]
    );
}

#[test]
fn levels_and_items_have_their_names() {
    assert_eq!(LintLevel::Off.name(), "off");
    assert_eq!(LintLevel::Warning.name(), "warn");
    assert_eq!(LintLevel::Error.name(), "error");
    assert_eq!(LintItem::Metric.name(), "metric");
    assert_eq!(LintItem::Pageview.name(), "pageview");
    assert_eq!(LintItem::Source.name(), "source");
}

#[test]
fn the_default_configuration_says_nothing() {
    let config = RulesConfig::default();
    assert!(config.needs_explicit_sources.is_none());
    assert!(config.needs_metric_description.is_none());
    assert!(config.needs_source_description.is_none());
    assert!(config.no_duplicate_metrics.is_none());
    assert!(config.no_duplicate_pageviews.is_none());
    assert!(config.no_duplicate_sources.is_none());
    assert!(config.uses_name_case.is_none());
}

#[test]
fn a_rule_without_a_local_entry_takes_the_global_one() {
    let local = RulesConfig::default();
    let global = RulesConfig {
        uses_name_case: name_case(Some(LintLevel::Warning), Some(Case::SnakeCase)),
        ..RulesConfig::default()
    };
    let merged = local.base_upon(&global);
    let entry = merged.uses_name_case.unwrap();
    assert_eq!(entry.level, Some(LintLevel::Warning));
    assert_eq!(entry.config.metric, Some(Case::SnakeCase));
    assert!(merged.no_duplicate_sources.is_none());
}

#[test]
fn a_local_entry_without_a_global_one_stands() {
    let local = RulesConfig {
        uses_name_case: name_case(None, Some(Case::KebabCase)),
        ..RulesConfig::default()
    };
    let merged = local.base_upon(&RulesConfig::default());
    let entry = merged.uses_name_case.unwrap();
    assert_eq!(entry.level, None);
    assert_eq!(entry.config.metric, Some(Case::KebabCase));
}

#[test]
fn a_local_level_wins() {
    let local = RulesConfig {
        uses_name_case: name_case(Some(LintLevel::Off), None),
        ..RulesConfig::default()
    };
    let global = RulesConfig {
        uses_name_case: name_case(Some(LintLevel::Error), Some(Case::PascalCase)),
        ..RulesConfig::default()
    };
    let entry = local.base_upon(&global).uses_name_case.unwrap();
    assert_eq!(entry.level, Some(LintLevel::Off));
}

#[test]
fn a_missing_local_level_falls_back_to_the_global_one() {
    let local = RulesConfig {
        uses_name_case: name_case(None, Some(Case::KebabCase)),
        ..RulesConfig::default()
    };
    let global = RulesConfig {
        uses_name_case: name_case(Some(LintLevel::Warning), Some(Case::PascalCase)),
        ..RulesConfig::default()
    };
    let entry = local.base_upon(&global).uses_name_case.unwrap();
    assert_eq!(entry.level, Some(LintLevel::Warning));
    assert_eq!(entry.config.metric, Some(Case::KebabCase));
}

#[test]
fn local_settings_stand_as_they_are() {
    let local = RulesConfig {
        uses_name_case: name_case(Some(LintLevel::Off), None),
        ..RulesConfig::default()
    };
    let global = RulesConfig {
        uses_name_case: name_case(Some(LintLevel::Error), Some(Case::PascalCase)),
        ..RulesConfig::default()
    };
    let entry = local.base_upon(&global).uses_name_case.unwrap();
    assert_eq!(entry.config, NameCase { metric: None, pageview: None });
}

#[test]
fn rules_are_merged_independently() {
    let local = RulesConfig {
        needs_metric_description: Some(RuleEntry {
            level: Some(LintLevel::Error),
            config: needs_metric_description::Config {},
        }),
        ..RulesConfig::default()
    };
    let global = RulesConfig {
        needs_metric_description: Some(RuleEntry {
            level: Some(LintLevel::Off),
            config: needs_metric_description::Config {},
        }),
        no_duplicate_sources: Some(RuleEntry {
            level: Some(LintLevel::Warning),
            config: no_duplicate_sources::Config {},
        }),
        ..RulesConfig::default()
    };
    let merged = local.base_upon(&global);
    assert_eq!(merged.needs_metric_description.unwrap().level, Some(LintLevel::Error));
    assert_eq!(merged.no_duplicate_sources.unwrap().level, Some(LintLevel::Warning));
    assert!(merged.uses_name_case.is_none());
}

#[test]
fn merge_is_total() {
    let some = RulesConfig {
        uses_name_case: name_case(Some(LintLevel::Warning), Some(Case::SnakeCase)),
        ..RulesConfig::default()
    };
    assert!(RulesConfig::merge(None, None).uses_name_case.is_none());
    assert_eq!(
        RulesConfig::merge(None, Some(&some)).uses_name_case.unwrap().level,
        Some(LintLevel::Warning)
    );
    assert_eq!(
        RulesConfig::merge(Some(&some), None).uses_name_case.unwrap().config.metric,
        Some(Case::SnakeCase)
    );
    let local = RulesConfig {
        uses_name_case: name_case(None, None),
        ..RulesConfig::default()
    };
    let merged = RulesConfig::merge(Some(&local), Some(&some)).uses_name_case.unwrap();
    assert_eq!(merged.level, Some(LintLevel::Warning));
    assert_eq!(merged.config.metric, None);
}

#[test]
fn merging_twice_gives_the_same() {
    let local = RulesConfig {
        uses_name_case: name_case(None, Some(Case::KebabCase)),
        ..RulesConfig::default()
    };
    let global = RulesConfig {
        uses_name_case: name_case(Some(LintLevel::Warning), Some(Case::PascalCase)),
        ..RulesConfig::default()
    };
    let first = RulesConfig::merge(Some(&local), Some(&global)).uses_name_case.unwrap();
    let second = RulesConfig::merge(Some(&local), Some(&global)).uses_name_case.unwrap();
    assert_eq!(first.level, second.level);
    assert_eq!(first.config, second.config);
}
