//! Transformers, the rules that say how a column is anonymized.

use crate::templates::{TemplatesCollection, TemplatesView};
use vstd::prelude::*;

verus! {

/// The language of generated values.
#[derive(Clone, Copy, Debug, PartialEq, Eq, Structural)]
pub enum LocaleConfig {
    EN,
    RU,
}

/// What transformers fall back on where they are not configured themselves.
#[derive(Clone, Copy, Debug, PartialEq, Eq, Structural)]
pub struct TransformerDefaults {
    pub locale: LocaleConfig,
}

impl Default for TransformerDefaults {
    fn default() -> (defaults: Self)
        ensures
            defaults.locale == LocaleConfig::EN,
    {
        TransformerDefaults { locale: LocaleConfig::EN }
    }
}

/// What every transformer is given before it is first used.
#[derive(Debug, PartialEq, Eq)]
pub struct TransformerInitContext {
    pub defaults: TransformerDefaults,
    pub template_collection: TemplatesCollection,
}

/// The contents of a [`TransformerInitContext`].
pub struct InitView {
    pub defaults: TransformerDefaults,
    pub templates: TemplatesView,
}

impl DeepView for TransformerInitContext {
    type V = InitView;

    open spec fn deep_view(&self) -> InitView {
        InitView { defaults: self.defaults, templates: self.template_collection.deep_view() }
    }
}

impl TransformerInitContext {
    /// A context with the given defaults and no templates.
    pub fn from_defaults(defaults: TransformerDefaults) -> (ctx: Self)
        ensures
            ctx.defaults == defaults,
            ctx.template_collection.deep_view() == TemplatesView::empty(),
    {
        TransformerInitContext { defaults, template_collection: TemplatesCollection::default() }
    }
}

/// A full name of a person.
#[derive(Clone, Copy, Debug, PartialEq, Eq, Structural)]
pub struct PersonNameTransformer {
    pub locale: Option<LocaleConfig>,
}

/// A first name of a person.
#[derive(Clone, Copy, Debug, PartialEq, Eq, Structural)]
pub struct FirstNameTransformer {
    pub locale: Option<LocaleConfig>,
}

/// A last name of a person.
#[derive(Clone, Copy, Debug, PartialEq, Eq, Structural)]
pub struct LastNameTransformer {
    pub locale: Option<LocaleConfig>,
}

/// A name of a company.
#[derive(Clone, Copy, Debug, PartialEq, Eq, Structural)]
pub struct CompanyNameTransformer {
    pub locale: Option<LocaleConfig>,
}

/// A text made from a template.
#[derive(Debug, PartialEq, Eq)]
pub struct TemplateTransformer {
    pub format: String,
    /// The templates that `format` can extend.
    pub templates: TemplatesCollection,
}

/// A rule for one column.
#[derive(Debug, PartialEq, Eq)]
pub enum Transformers {
    PersonName(PersonNameTransformer),
    FirstName(FirstNameTransformer),
    LastName(LastNameTransformer),
    CompanyName(CompanyNameTransformer),
    Template(TemplateTransformer),
}

/// The contents of a [`Transformers`].
pub enum RuleView {
    PersonName(Option<LocaleConfig>),
    FirstName(Option<LocaleConfig>),
    LastName(Option<LocaleConfig>),
    CompanyName(Option<LocaleConfig>),
    Template { format: Seq<char>, templates: TemplatesView },
}

/// The locale of its own, or else the default one.
pub open spec fn locale_or(own: Option<LocaleConfig>, default: LocaleConfig) -> Option<
    LocaleConfig,
> {
    match own {
        Some(locale) => Some(locale),
        None => Some(default),
    }
}

impl RuleView {
    /// The rule once it has been given a context: a rule that makes names takes the
    /// default locale unless it has its own, and a template rule takes the templates.
    pub open spec fn initialized(self, ctx: InitView) -> RuleView {
        match self {
            RuleView::PersonName(own) => RuleView::PersonName(
                locale_or(own, ctx.defaults.locale),
            ),
            RuleView::FirstName(own) => RuleView::FirstName(locale_or(own, ctx.defaults.locale)),
            RuleView::LastName(own) => RuleView::LastName(locale_or(own, ctx.defaults.locale)),
            RuleView::CompanyName(own) => RuleView::CompanyName(
                locale_or(own, ctx.defaults.locale),
            ),
            RuleView::Template { format, .. } => RuleView::Template {
                format,
                templates: ctx.templates,
            },
        }
    }
}

impl DeepView for Transformers {
    type V = RuleView;

    open spec fn deep_view(&self) -> RuleView {
        match self {
            Transformers::PersonName(t) => RuleView::PersonName(t.locale),
            Transformers::FirstName(t) => RuleView::FirstName(t.locale),
            Transformers::LastName(t) => RuleView::LastName(t.locale),
            Transformers::CompanyName(t) => RuleView::CompanyName(t.locale),
            Transformers::Template(t) => RuleView::Template {
                format: t.format@,
                templates: t.templates.deep_view(),
            },
        }
    }
}

fn own_or(own: Option<LocaleConfig>, default: LocaleConfig) -> (locale: Option<LocaleConfig>)
    ensures
        locale == locale_or(own, default),
{
    match own {
        Some(locale) => Some(locale),
        None => Some(default),
    }
}

impl Transformers {
    /// Prepares the rule for use with what the settings say about all rules.
    pub fn init(&mut self, ctx: &TransformerInitContext)
        ensures
            final(self).deep_view() == old(self).deep_view().initialized(ctx.deep_view()),
    {
        match self {
            Transformers::PersonName(t) => {
                t.locale = own_or(t.locale, ctx.defaults.locale);
            },
            Transformers::FirstName(t) => {
                t.locale = own_or(t.locale, ctx.defaults.locale);
            },
            Transformers::LastName(t) => {
                t.locale = own_or(t.locale, ctx.defaults.locale);
            },
            Transformers::CompanyName(t) => {
                t.locale = own_or(t.locale, ctx.defaults.locale);
            },
            Transformers::Template(t) => {
                t.templates = ctx.template_collection.clone();
            },
        }
    }
}

impl Clone for Transformers {
    fn clone(&self) -> (copy: Self)
        ensures
            copy.deep_view() == self.deep_view(),
    {
        match self {
            Transformers::PersonName(t) => Transformers::PersonName(*t),
            Transformers::FirstName(t) => Transformers::FirstName(*t),
            Transformers::LastName(t) => Transformers::LastName(*t),
            Transformers::CompanyName(t) => Transformers::CompanyName(*t),
            Transformers::Template(t) => Transformers::Template(
                TemplateTransformer {
                    format: t.format.clone(),
                    templates: t.templates.clone(),
                },
            ),
        }
    }
}

/// The contents of a rule are its kind and all that it is configured with.
pub proof fn law_rule_view(rule: Transformers)
    ensures
        match rule {
            Transformers::PersonName(t) => {
                rule.deep_view() is PersonName && rule.deep_view()->PersonName_0 == t.locale
            },
            Transformers::FirstName(t) => {
                rule.deep_view() is FirstName && rule.deep_view()->FirstName_0 == t.locale
            },
            Transformers::LastName(t) => {
                rule.deep_view() is LastName && rule.deep_view()->LastName_0 == t.locale
            },
            Transformers::CompanyName(t) => {
                rule.deep_view() is CompanyName && rule.deep_view()->CompanyName_0 == t.locale
            },
            Transformers::Template(t) => {
                &&& rule.deep_view() is Template
                &&& rule.deep_view()->format == t.format@
                &&& rule.deep_view()->templates == t.templates.deep_view()
            },
        },
{
}

/// The contents of a context are its defaults and its templates.
pub proof fn law_context_view(ctx: TransformerInitContext)
    ensures
        ctx.deep_view().defaults == ctx.defaults,
        ctx.deep_view().templates == ctx.template_collection.deep_view(),
{
}

/// Preparing a rule keeps its kind and what it is configured with; a rule that makes
/// names and has no locale gets the default one, and a template rule gets the
/// templates of the context, all of them.
pub proof fn law_prepared_rule(before: Transformers, after: Transformers, ctx: TransformerInitContext)
    requires
        after.deep_view() == before.deep_view().initialized(ctx.deep_view()),
    ensures
        match (before, after) {
            (Transformers::PersonName(b), Transformers::PersonName(a)) => {
                a.locale == Some(if b.locale is Some { b.locale->0 } else { ctx.defaults.locale })
            },
            (Transformers::FirstName(b), Transformers::FirstName(a)) => {
                a.locale == Some(if b.locale is Some { b.locale->0 } else { ctx.defaults.locale })
            },
            (Transformers::LastName(b), Transformers::LastName(a)) => {
                a.locale == Some(if b.locale is Some { b.locale->0 } else { ctx.defaults.locale })
            },
            (Transformers::CompanyName(b), Transformers::CompanyName(a)) => {
                a.locale == Some(if b.locale is Some { b.locale->0 } else { ctx.defaults.locale })
            },
            (Transformers::Template(b), Transformers::Template(a)) => {
                &&& a.format@ == b.format@
                &&& a.templates.deep_view() == ctx.template_collection.deep_view()
            },
            _ => false,
        },
{
}

} // verus!
