//! Names of metrics and pageviews follow a configured casing scheme.

use heck::{
    ToKebabCase, ToLowerCamelCase, ToPascalCase, ToShoutyKebabCase, ToShoutySnakeCase,
    ToSnakeCase, ToTitleCase, ToTrainCase,
};
use vstd::prelude::*;

use crate::lint::rules::cache::RuleCache;
use crate::lint::rules::{gathered, NoCache, Rule};
use crate::lint::{findings_view, FindingView, LintItem, LintLevel, LintResult};
use crate::schema::spec::{entries_of, Event, Pageview, Spec};

verus! {

/// The casing schemes that a name can be held to.
#[allow(clippy::enum_variant_names)]
#[derive(Debug, Clone, Copy, PartialEq, Eq, Structural)]
pub enum Case {
    TitleCase,
    LowerCase,
    UpperCase,
    CamelCase,
    PascalCase,
    SnakeCase,
    ScreamingSnakeCase,
    KebabCase,
    ScreamingKebabCase,
    TrainCase,
}

/// The scheme for each kind of name. A kind without one is held to Title
/// Case.
#[derive(Debug, Clone, Copy, PartialEq, Eq, Structural)]
pub struct Config {
    pub metric: Option<Case>,
    pub pageview: Option<Case>,
}

impl Default for Config {
    fn default() -> (out: Self)
        ensures
            out == (Config { metric: None, pageview: None }),
    {
        Config { metric: None, pageview: None }
    }
}

/// What `heck` makes of a name in Title Case.
pub uninterp spec fn title_case_of(name: Seq<char>) -> Seq<char>;

/// What `heck` makes of a name in lowerCamelCase.
pub uninterp spec fn lower_camel_case_of(name: Seq<char>) -> Seq<char>;

/// What `heck` makes of a name in PascalCase.
pub uninterp spec fn pascal_case_of(name: Seq<char>) -> Seq<char>;

/// What `heck` makes of a name in snake_case.
pub uninterp spec fn snake_case_of(name: Seq<char>) -> Seq<char>;

/// What `heck` makes of a name in SHOUTY_SNAKE_CASE.
pub uninterp spec fn shouty_snake_case_of(name: Seq<char>) -> Seq<char>;

/// What `heck` makes of a name in kebab-case.
pub uninterp spec fn kebab_case_of(name: Seq<char>) -> Seq<char>;

/// What `heck` makes of a name in SHOUTY-KEBAB-CASE.
pub uninterp spec fn shouty_kebab_case_of(name: Seq<char>) -> Seq<char>;

/// What `heck` makes of a name in Train-Case.
pub uninterp spec fn train_case_of(name: Seq<char>) -> Seq<char>;

/// The lowercase of a string, as `str::to_lowercase` gives it.
pub uninterp spec fn lowercase_of(text: Seq<char>) -> Seq<char>;

/// The uppercase of a string, as `str::to_uppercase` gives it.
pub uninterp spec fn uppercase_of(text: Seq<char>) -> Seq<char>;

/// `heck::ToTitleCase::to_title_case` on a `str`. Trusted: the result is a
/// function of the name alone, here called `title_case_of`.
#[verifier::external_body]
fn to_title_case(name: &str) -> (out: String)
    ensures
        out@ == title_case_of(name@),
{
    name.to_title_case()
}

/// `heck::ToLowerCamelCase::to_lower_camel_case` on a `str`. Trusted: the
/// result is a function of the name alone, here called `lower_camel_case_of`.
#[verifier::external_body]
fn to_lower_camel_case(name: &str) -> (out: String)
    ensures
        out@ == lower_camel_case_of(name@),
{
    name.to_lower_camel_case()
}

/// `heck::ToPascalCase::to_pascal_case` on a `str`. Trusted: the result is a
/// function of the name alone, here called `pascal_case_of`.
#[verifier::external_body]
fn to_pascal_case(name: &str) -> (out: String)
    ensures
        out@ == pascal_case_of(name@),
{
    name.to_pascal_case()
}

/// `heck::ToSnakeCase::to_snake_case` on a `str`. Trusted: the result is a
/// function of the name alone, here called `snake_case_of`.
#[verifier::external_body]
fn to_snake_case(name: &str) -> (out: String)
    ensures
        out@ == snake_case_of(name@),
{
    name.to_snake_case()
}

/// `heck::ToShoutySnakeCase::to_shouty_snake_case` on a `str`. Trusted: the
/// result is a function of the name alone, here called `shouty_snake_case_of`.
#[verifier::external_body]
fn to_shouty_snake_case(name: &str) -> (out: String)
    ensures
        out@ == shouty_snake_case_of(name@),
{
    name.to_shouty_snake_case()
}

/// `heck::ToKebabCase::to_kebab_case` on a `str`. Trusted: the result is a
/// function of the name alone, here called `kebab_case_of`.
#[verifier::external_body]
fn to_kebab_case(name: &str) -> (out: String)
    ensures
        out@ == kebab_case_of(name@),
{
    name.to_kebab_case()
}

/// `heck::ToShoutyKebabCase::to_shouty_kebab_case` on a `str`. Trusted: the
/// result is a function of the name alone, here called `shouty_kebab_case_of`.
#[verifier::external_body]
fn to_shouty_kebab_case(name: &str) -> (out: String)
    ensures
        out@ == shouty_kebab_case_of(name@),
{
    name.to_shouty_kebab_case()
}

/// `heck::ToTrainCase::to_train_case` on a `str`. Trusted: the result is a
/// function of the name alone, here called `train_case_of`.
#[verifier::external_body]
fn to_train_case(name: &str) -> (out: String)
    ensures
        out@ == train_case_of(name@),
{
    name.to_train_case()
}

/// `str::to_lowercase`. Trusted: the result is a function of the text alone,
/// here called `lowercase_of`.
#[verifier::external_body]
fn to_lowercase(text: &str) -> (out: String)
    ensures
        out@ == lowercase_of(text@),
{
    text.to_lowercase()
}

/// `str::to_uppercase`. Trusted: the result is a function of the text alone,
/// here called `uppercase_of`.
#[verifier::external_body]
fn to_uppercase(text: &str) -> (out: String)
    ensures
        out@ == uppercase_of(text@),
{
    text.to_uppercase()
}

impl Case {
    /// The scheme's canonical display string.
    pub open spec fn label(self) -> Seq<char> {
        match self {
            Case::TitleCase => "Title Case"@,
            Case::LowerCase => "lower case"@,
            Case::UpperCase => "UPPER CASE"@,
            Case::CamelCase => "camelCase"@,
            Case::PascalCase => "PascalCase"@,
            Case::SnakeCase => "snake_case"@,
            Case::ScreamingSnakeCase => "SCREAMING_SNAKE_CASE"@,
            Case::KebabCase => "kebab-case"@,
            Case::ScreamingKebabCase => "SCREAMING-KEBAB-CASE"@,
            Case::TrainCase => "Train-Case"@,
        }
    }

    /// The name as the scheme writes it. The two schemes without a converter
    /// of their own go through Title Case, which keeps the words apart.
    pub open spec fn converted(self, name: Seq<char>) -> Seq<char> {
        match self {
            Case::LowerCase => lowercase_of(title_case_of(name)),
            Case::UpperCase => uppercase_of(title_case_of(name)),
            Case::TitleCase => title_case_of(name),
            Case::CamelCase => lower_camel_case_of(name),
            Case::PascalCase => pascal_case_of(name),
            Case::SnakeCase => snake_case_of(name),
            Case::ScreamingSnakeCase => shouty_snake_case_of(name),
            Case::KebabCase => kebab_case_of(name),
            Case::ScreamingKebabCase => shouty_kebab_case_of(name),
            Case::TrainCase => train_case_of(name),
        }
    }

    /// Whether the scheme accepts the name: converting it changes nothing.
    pub open spec fn accepts(self, name: Seq<char>) -> bool {
        self.converted(name) == name
    }

    /// The finding for a name, given what the scheme converts it to: none
    /// where the two are the same string, else one that names the scheme.
    pub open spec fn verdict(self, item: LintItem, name: Seq<char>, converted: Seq<char>) -> Seq<
        FindingView,
    > {
        if converted == name {
            Seq::empty()
        } else {
            seq![(item, name, "name is not in "@ + self.label())]
        }
    }

    /// The scheme's canonical display string.
    pub fn name(&self) -> (out: &'static str)
        ensures
            out@ == self.label(),
    {
        match self {
            Case::TitleCase => "Title Case",
            Case::LowerCase => "lower case",
            Case::UpperCase => "UPPER CASE",
            Case::CamelCase => "camelCase",
            Case::PascalCase => "PascalCase",
            Case::SnakeCase => "snake_case",
            Case::ScreamingSnakeCase => "SCREAMING_SNAKE_CASE",
            Case::KebabCase => "kebab-case",
            Case::ScreamingKebabCase => "SCREAMING-KEBAB-CASE",
            Case::TrainCase => "Train-Case",
        }
    }

    /// Writes the name in this scheme.
    pub fn convert(&self, name: &str) -> (out: String)
        ensures
            out@ == self.converted(name@),
    {
        match self {
            Case::LowerCase => to_lowercase(to_title_case(name).as_str()),
            Case::UpperCase => to_uppercase(to_title_case(name).as_str()),
            Case::TitleCase => to_title_case(name),
            Case::CamelCase => to_lower_camel_case(name),
            Case::PascalCase => to_pascal_case(name),
            Case::SnakeCase => to_snake_case(name),
            Case::ScreamingSnakeCase => to_shouty_snake_case(name),
            Case::KebabCase => to_kebab_case(name),
            Case::ScreamingKebabCase => to_shouty_kebab_case(name),
            Case::TrainCase => to_train_case(name),
        }
    }

    /// Compares a name with its converted form and reports the name where
    /// they differ, character for character.
    pub fn judge(&self, item: LintItem, name: &String, converted: &String) -> (out: Option<
        (LintItem, String, LintResult),
    >)
        ensures
            converted@ == name@ <==> out is None,
            out matches Some(f) ==> f.0 == item && f.1@ == name@ && f.2.message@
                == "name is not in "@ + self.label(),
    {
        if *converted == *name {
            None
        } else {
            let message = String::from_str("name is not in ").concat(self.name());
            Some((item, name.clone(), LintResult { message }))
        }
    }
}

/// The scheme that a kind of name is held to.
pub open spec fn scheme(choice: Option<Case>) -> Case {
    match choice {
        Some(case) => case,
        None => Case::TitleCase,
    }
}

/// What the rule finds in one name: a scheme that does not accept it.
pub open spec fn miscased(case: Case, item: LintItem, name: Seq<char>) -> Seq<FindingView> {
    case.verdict(item, name, case.converted(name))
}

/// Where converting a converted name once more changes nothing, the scheme
/// accepts the converted name, and the rule has nothing to say about it.
pub proof fn lemma_settled_name_passes(case: Case, item: LintItem, name: Seq<char>)
    requires
        case.converted(case.converted(name)) == case.converted(name),
    ensures
        case.accepts(case.converted(name)),
        miscased(case, item, case.converted(name)) == Seq::<FindingView>::empty(),
{
}

/// The rule reports a name exactly where the scheme does not accept it.
pub proof fn lemma_reported_iff_not_accepted(case: Case, item: LintItem, name: Seq<char>)
    ensures
        case.accepts(name) <==> miscased(case, item, name) == Seq::<FindingView>::empty(),
        !case.accepts(name) ==> miscased(case, item, name) == seq![
            (item, name, "name is not in "@ + case.label()),
        ],
{
    if !case.accepts(name) {
        assert(miscased(case, item, name).len() == 1);
    }
}

impl Rule for Config {
    type Cache = NoCache;

    open spec fn default_level(&self) -> LintLevel {
        LintLevel::Error
    }

    open spec fn item(&self) -> LintItem {
        LintItem::Metric
    }

    open spec fn cached(cache: &NoCache) -> Seq<Seq<char>> {
        Seq::empty()
    }

    open spec fn kept(spec: &Spec) -> Seq<Seq<char>> {
        Seq::empty()
    }

    open spec fn findings(&self, cached: Seq<Seq<char>>, common: Seq<Seq<char>>, spec: &Spec) -> Seq<
        FindingView,
    > {
        gathered(
            entries_of(spec.metrics),
            |entry: (String, Event)| miscased(scheme(self.metric), LintItem::Metric, entry.0@),
        ) + gathered(
            entries_of(spec.pageviews),
            |entry: (String, Pageview)|
                miscased(scheme(self.pageview), LintItem::Pageview, entry.0@),
        )
    }

    fn level(&self) -> (out: LintLevel) {
        LintLevel::Error
    }

    fn ty(&self) -> (out: LintItem) {
        LintItem::Metric
    }

    fn pre_compute(cache: &mut NoCache, spec: &Spec) {
        assert(Seq::<Seq<char>>::empty() + Seq::<Seq<char>>::empty() =~= Seq::<Seq<char>>::empty());
    }

    fn run(&self, cache: RuleCache<NoCache>, spec: &Spec) -> (out: Vec<
        (LintItem, String, LintResult),
    >) {
        let mut out: Vec<(LintItem, String, LintResult)> = Vec::new();
        let metric_case = match self.metric {
            Some(case) => case,
            None => Case::TitleCase,
        };
        let pageview_case = match self.pageview {
            Some(case) => case,
            None => Case::TitleCase,
        };
        let ghost of_metric = |entry: (String, Event)|
            miscased(metric_case, LintItem::Metric, entry.0@);
        let ghost of_pageview = |entry: (String, Pageview)|
            miscased(pageview_case, LintItem::Pageview, entry.0@);
        if let Some(entries) = &spec.metrics {
            let mut i: usize = 0;
            while i < entries.len()
                invariant
                    i <= entries.len(),
                    of_metric == |entry: (String, Event)|
                        miscased(metric_case, LintItem::Metric, entry.0@),
                    findings_view(out@) == gathered(entries@.take(i as int), of_metric),
                decreases entries.len() - i,
            {
                let ghost before = out@;
                let converted = metric_case.convert(entries[i].0.as_str());
                if let Some(finding) = metric_case.judge(
                    LintItem::Metric,
                    &entries[i].0,
                    &converted,
                ) {
                    out.push(finding);
                }
                proof {
                    assert(entries@.take(i as int + 1).drop_last() =~= entries@.take(i as int));
                    assert(findings_view(out@) =~= findings_view(before) + miscased(
                        metric_case,
                        LintItem::Metric,
                        entries[i as int].0@,
                    ));
                }
                i = i + 1;
            }
            assert(entries@.take(i as int) =~= entries@);
        }
        let ghost first = out@;
        if let Some(entries) = &spec.pageviews {
            let mut i: usize = 0;
            while i < entries.len()
                invariant
                    i <= entries.len(),
                    of_pageview == |entry: (String, Pageview)|
                        miscased(pageview_case, LintItem::Pageview, entry.0@),
                    findings_view(out@) == findings_view(first) + gathered(
                        entries@.take(i as int),
                        of_pageview,
                    ),
                decreases entries.len() - i,
            {
                let ghost before = out@;
                let converted = pageview_case.convert(entries[i].0.as_str());
                if let Some(finding) = pageview_case.judge(
                    LintItem::Pageview,
                    &entries[i].0,
                    &converted,
                ) {
                    out.push(finding);
                }
                proof {
                    assert(entries@.take(i as int + 1).drop_last() =~= entries@.take(i as int));
                    assert(findings_view(out@) =~= findings_view(before) + miscased(
                        pageview_case,
                        LintItem::Pageview,
                        entries[i as int].0@,
                    ));
                }
                i = i + 1;
            }
            assert(entries@.take(i as int) =~= entries@);
        } else {
            assert(findings_view(out@) =~= findings_view(first) + Seq::<FindingView>::empty());
        }
        out
    }
}

} // verus!
