//! The budget configuration and how a budget is resolved from it.

use crate::errors::LintError;
use crate::table::Table;
use crate::text::{same_text, string_views};
use vstd::prelude::*;

verus! {

/// The names of the supported models.
pub open spec fn supported_models() -> Seq<Seq<char>> {
    seq!["gpt-5"@, "gpt-4o"@, "gpt-4o-mini"@, "gpt-4-turbo"@, "gpt-4"@, "gpt-3.5-turbo"@]
}

/// The encoding that a supported model uses unless one is configured.
pub open spec fn spec_default_encoding(model: Seq<char>) -> Option<Seq<char>> {
    if model == "gpt-5"@ || model == "gpt-4o"@ || model == "gpt-4o-mini"@ {
        Some("o200k_base"@)
    } else if model == "gpt-4-turbo"@ || model == "gpt-4"@ || model == "gpt-3.5-turbo"@ {
        Some("cl100k_base"@)
    } else {
        None
    }
}

/// The encoding used for a model that is not supported and has none
/// configured.
pub open spec fn fallback_encoding() -> Seq<char> {
    "cl100k_base"@
}

/// The views of an optional string.
pub open spec fn optional_view(o: Option<String>) -> Option<Seq<char>> {
    match o {
        Some(s) => Some(s@),
        None => None,
    }
}

/// A model has a default encoding exactly if it is supported.
pub proof fn lemma_supported_has_default(model: Seq<char>)
    ensures
        spec_default_encoding(model) is Some <==> supported_models().contains(model),
{
    let all = supported_models();
    if spec_default_encoding(model) is Some {
        if model == "gpt-5"@ {
            assert(all[0] == model);
        } else if model == "gpt-4o"@ {
            assert(all[1] == model);
        } else if model == "gpt-4o-mini"@ {
            assert(all[2] == model);
        } else if model == "gpt-4-turbo"@ {
            assert(all[3] == model);
        } else if model == "gpt-4"@ {
            assert(all[4] == model);
        } else {
            assert(all[5] == model);
        }
    }
}

/// The default encoding of a supported model, `None` for any other name.
pub fn default_encoding(model: &str) -> (r: Option<&'static str>)
    ensures
        match r {
            Some(e) => spec_default_encoding(model@) == Some(e@),
            None => spec_default_encoding(model@) is None,
        },
{
    if same_text(model, "gpt-5") || same_text(model, "gpt-4o") || same_text(model, "gpt-4o-mini") {
        Some("o200k_base")
    } else if same_text(model, "gpt-4-turbo") || same_text(model, "gpt-4") || same_text(
        model,
        "gpt-3.5-turbo",
    ) {
        Some("cl100k_base")
    } else {
        None
    }
}

/// The views of the elements of `v`.
pub open spec fn static_views(v: Seq<&'static str>) -> Seq<Seq<char>> {
    v.map_values(|s: &'static str| s@)
}

/// The names of all supported models.
pub fn supported_model_names() -> (r: Vec<&'static str>)
    ensures
        static_views(r@) == supported_models(),
{
    let mut r: Vec<&'static str> = Vec::new();
    r.push("gpt-5");
    r.push("gpt-4o");
    r.push("gpt-4o-mini");
    r.push("gpt-4-turbo");
    r.push("gpt-4");
    r.push("gpt-3.5-turbo");
    assert(static_views(r@) =~= supported_models());
    r
}

/// The budget of one model under one rule.
#[derive(Debug, Clone)]
pub struct ModelBudget {
    pub encoding: Option<String>,
    pub warning: usize,
    pub error: usize,
}

/// A budget while overrides are being applied to it.
pub struct BudgetView {
    pub encoding: Option<Seq<char>>,
    pub warning: nat,
    pub error: nat,
}

impl View for ModelBudget {
    type V = BudgetView;

    open spec fn view(&self) -> BudgetView {
        BudgetView {
            encoding: optional_view(self.encoding),
            warning: self.warning as nat,
            error: self.error as nat,
        }
    }
}

/// What an override sets for one model. A field that is `None` leaves the
/// budget's field as it is.
#[derive(Debug, Clone)]
pub struct OverrideModelBudget {
    pub encoding: Option<String>,
    pub warning: Option<usize>,
    pub error: Option<usize>,
}

/// The token limit: a budget for each model, applied to whole documents.
#[derive(Debug, Clone)]
pub struct TokenLimitConfig {
    pub models: Table<ModelBudget>,
}

/// The skill index budget: a budget for each model, applied to the front
/// matter of all documents together.
#[derive(Debug, Clone)]
pub struct SkillIndexBudgetConfig {
    pub models: Table<ModelBudget>,
}

/// The front matter limit: a budget for each model, applied to the front
/// matter of each document.
#[derive(Debug, Clone)]
pub struct FrontmatterLimitConfig {
    pub models: Table<ModelBudget>,
}

/// What an override sets under the token limit, for each model it names.
#[derive(Debug, Clone)]
pub struct OverrideTokenLimit {
    pub models: Table<OverrideModelBudget>,
}

/// What an override sets. Only the token limit can be overridden.
#[derive(Debug, Clone)]
pub struct OverrideRules {
    pub token_limit: OverrideTokenLimit,
}

/// Overrides for the files named in `files`, by exact path.
#[derive(Debug, Clone)]
pub struct OverrideEntry {
    pub files: Vec<String>,
    pub rules: OverrideRules,
}

/// The rules of a configuration. The token limit is always there; each
/// other rule is on only if it is configured.
#[derive(Debug, Clone)]
pub struct RulesConfig {
    pub token_limit: TokenLimitConfig,
    pub skill_index_budget: Option<SkillIndexBudgetConfig>,
    pub frontmatter_limit: Option<FrontmatterLimitConfig>,
    pub skill_structure: Option<bool>,
    pub unique_name: Option<bool>,
    pub unique_description: Option<bool>,
}

/// The configuration of a run.
#[derive(Debug, Clone)]
pub struct Config {
    pub patterns: Vec<String>,
    pub rules: RulesConfig,
    pub overrides: Vec<OverrideEntry>,
    pub cache: bool,
}

/// The budget that applies to one text for one model.
#[derive(Debug, Clone)]
pub struct ResolvedBudget {
    pub encoding: String,
    pub warning: usize,
    pub error: usize,
}

/// What a `ResolvedBudget` says.
pub struct ResolvedBudgetView {
    pub encoding: Seq<char>,
    pub warning: nat,
    pub error: nat,
}

impl View for ResolvedBudget {
    type V = ResolvedBudgetView;

    open spec fn view(&self) -> ResolvedBudgetView {
        ResolvedBudgetView {
            encoding: self.encoding@,
            warning: self.warning as nat,
            error: self.error as nat,
        }
    }
}

/// The view of an optional resolved budget.
pub open spec fn resolved_view(r: Option<ResolvedBudget>) -> Option<ResolvedBudgetView> {
    match r {
        Some(b) => Some(b@),
        None => None,
    }
}

/// `acc` with each field that `o` sets replaced.
pub open spec fn apply_override(acc: BudgetView, o: OverrideModelBudget) -> BudgetView {
    BudgetView {
        encoding: match o.encoding {
            Some(e) => Some(e@),
            None => acc.encoding,
        },
        warning: match o.warning {
            Some(w) => w as nat,
            None => acc.warning,
        },
        error: match o.error {
            Some(e) => e as nat,
            None => acc.error,
        },
    }
}

/// Whether `entry` names `file`.
pub open spec fn entry_names(entry: OverrideEntry, file: Seq<char>) -> bool {
    string_views(entry.files@).contains(file)
}

/// `acc` after `entry`: changed only if the entry names `file` and
/// overrides `model`.
pub open spec fn apply_entry(
    acc: BudgetView,
    entry: OverrideEntry,
    file: Seq<char>,
    model: Seq<char>,
) -> BudgetView {
    if entry_names(entry, file) {
        match entry.rules.token_limit.models.spec_get(model) {
            Some(o) => apply_override(acc, o),
            None => acc,
        }
    } else {
        acc
    }
}

/// `acc` after all of `overrides`, applied in their order.
pub open spec fn fold_overrides(
    acc: BudgetView,
    overrides: Seq<OverrideEntry>,
    file: Seq<char>,
    model: Seq<char>,
) -> BudgetView
    decreases overrides.len(),
{
    if overrides.len() == 0 {
        acc
    } else {
        apply_entry(
            fold_overrides(acc, overrides.drop_last(), file, model),
            overrides.last(),
            file,
            model,
        )
    }
}

/// The budget that `acc` stands for: its encoding if it has one, else the
/// model's default, else the fallback.
pub open spec fn finish(acc: BudgetView, model: Seq<char>) -> ResolvedBudgetView {
    ResolvedBudgetView {
        encoding: match acc.encoding {
            Some(e) => e,
            None => match spec_default_encoding(model) {
                Some(d) => d,
                None => fallback_encoding(),
            },
        },
        warning: acc.warning,
        error: acc.error,
    }
}

/// The budget of `model` in `table`, with no override applied.
pub open spec fn resolve_in(table: Table<ModelBudget>, model: Seq<char>) -> Option<
    ResolvedBudgetView,
> {
    match table.spec_get(model) {
        Some(b) => Some(finish(b@, model)),
        None => None,
    }
}

/// The first of `names` that is no supported model.
pub open spec fn first_unsupported(names: Seq<Seq<char>>) -> Option<Seq<char>>
    decreases names.len(),
{
    if names.len() == 0 {
        None
    } else if spec_default_encoding(names[0]) is None {
        Some(names[0])
    } else {
        first_unsupported(names.drop_first())
    }
}

/// The model names of the overrides, entry by entry.
pub open spec fn override_models(overrides: Seq<OverrideEntry>) -> Seq<Seq<char>>
    decreases overrides.len(),
{
    if overrides.len() == 0 {
        Seq::empty()
    } else {
        override_models(overrides.drop_last()) + overrides.last().rules.token_limit.models.names()
    }
}

/// The first unsupported name of `a + b` is that of `a`, or else that of `b`.
pub proof fn lemma_first_unsupported_concat(a: Seq<Seq<char>>, b: Seq<Seq<char>>)
    ensures
        first_unsupported(a + b) == if first_unsupported(a) is Some {
            first_unsupported(a)
        } else {
            first_unsupported(b)
        },
    decreases a.len(),
{
    if a.len() == 0 {
        assert(a + b =~= b);
    } else {
        assert((a + b)[0] == a[0]);
        assert((a + b).drop_first() =~= a.drop_first() + b);
        lemma_first_unsupported_concat(a.drop_first(), b);
    }
}

/// A list has no unsupported name exactly if each of its names is supported.
pub proof fn lemma_first_unsupported_none(names: Seq<Seq<char>>)
    ensures
        first_unsupported(names) is None <==> forall|i: int|
            0 <= i < names.len() ==> spec_default_encoding(#[trigger] names[i]) is Some,
    decreases names.len(),
{
    if names.len() > 0 {
        let t = names.drop_first();
        lemma_first_unsupported_none(t);
        if first_unsupported(names) is None {
            assert forall|i: int| 0 <= i < names.len() implies spec_default_encoding(
                #[trigger] names[i],
            ) is Some by {
                if i > 0 {
                    assert(names[i] == t[i - 1]);
                }
            }
        } else if spec_default_encoding(names[0]) is Some {
            let j = choose|j: int| 0 <= j < t.len() && !(spec_default_encoding(
                #[trigger] t[j],
            ) is Some);
            assert(names[j + 1] == t[j]);
        }
    }
}

impl Config {
    /// The budget for the whole of `file` under `model`: the global budget
    /// with every override that names the file applied in declaration order,
    /// or `None` if the model has no global budget.
    pub open spec fn spec_resolve_token_limit(&self, file: Seq<char>, model: Seq<char>) -> Option<
        ResolvedBudgetView,
    > {
        match self.rules.token_limit.models.spec_get(model) {
            Some(global) => Some(finish(fold_overrides(global@, self.overrides@, file, model), model)),
            None => None,
        }
    }

    /// The front matter budget of `model`.
    pub open spec fn spec_resolve_frontmatter_limit(&self, model: Seq<char>) -> Option<
        ResolvedBudgetView,
    > {
        match self.rules.frontmatter_limit {
            Some(rule) => resolve_in(rule.models, model),
            None => None,
        }
    }

    /// The skill index budget of `model`.
    pub open spec fn spec_resolve_skill_index_budget(&self, model: Seq<char>) -> Option<
        ResolvedBudgetView,
    > {
        match self.rules.skill_index_budget {
            Some(rule) => resolve_in(rule.models, model),
            None => None,
        }
    }

    /// The model names under the skill index budget, none if it is not
    /// configured.
    pub open spec fn skill_index_models(&self) -> Seq<Seq<char>> {
        match self.rules.skill_index_budget {
            Some(rule) => rule.models.names(),
            None => Seq::empty(),
        }
    }

    /// The model names under the front matter limit, none if it is not
    /// configured.
    pub open spec fn frontmatter_models(&self) -> Seq<Seq<char>> {
        match self.rules.frontmatter_limit {
            Some(rule) => rule.models.names(),
            None => Seq::empty(),
        }
    }

    /// Every model name that the configuration mentions, in the order in
    /// which they are checked.
    pub open spec fn referenced_models(&self) -> Seq<Seq<char>> {
        self.rules.token_limit.models.names() + self.skill_index_models()
            + self.frontmatter_models() + override_models(self.overrides@)
    }

    /// Checks that every model named anywhere in the configuration is
    /// supported. The error names the first one that is not.
    pub fn validate(&self) -> (r: Result<(), LintError>)
        ensures
            match r {
                Ok(_) => first_unsupported(self.referenced_models()) is None,
                Err(LintError::UnsupportedModel(model, names)) => first_unsupported(
                    self.referenced_models(),
                ) == Some(model@) && string_views(names@) == supported_models(),
                Err(_) => false,
            },
    {
        let ghost a = self.rules.token_limit.models.names();
        let ghost b = self.skill_index_models();
        let ghost c = self.frontmatter_models();
        let ghost d = override_models(self.overrides@);
        proof {
            lemma_first_unsupported_concat(a + b + c, d);
            lemma_first_unsupported_concat(a + b, c);
            lemma_first_unsupported_concat(a, b);
        }
        if let Some(model) = unsupported_in(&self.rules.token_limit.models) {
            return Err(unsupported(model));
        }
        match &self.rules.skill_index_budget {
            Some(rule) => {
                if let Some(model) = unsupported_in(&rule.models) {
                    return Err(unsupported(model));
                }
            },
            None => {},
        }
        match &self.rules.frontmatter_limit {
            Some(rule) => {
                if let Some(model) = unsupported_in(&rule.models) {
                    return Err(unsupported(model));
                }
            },
            None => {},
        }
        let mut i: usize = 0;
        assert(self.overrides@.take(0) =~= Seq::<OverrideEntry>::empty());
        while i < self.overrides.len()
            invariant
                i <= self.overrides.len(),
                first_unsupported(self.referenced_models()) == first_unsupported(
                    override_models(self.overrides@),
                ),
                first_unsupported(override_models(self.overrides@.take(i as int))) is None,
            decreases self.overrides.len() - i,
        {
            let ghost seen = override_models(self.overrides@.take(i as int));
            let ghost next = self.overrides@[i as int].rules.token_limit.models.names();
            proof {
                assert(self.overrides@.take(i + 1).drop_last() =~= self.overrides@.take(i as int));
                lemma_first_unsupported_concat(seen, next);
            }
            if let Some(model) = unsupported_in(&self.overrides[i].rules.token_limit.models) {
                proof {
                    lemma_override_models_split(self.overrides@, i + 1);
                    lemma_first_unsupported_concat(
                        override_models(self.overrides@.take(i + 1)),
                        override_models(self.overrides@.skip(i + 1)),
                    );
                }
                return Err(unsupported(model));
            }
            i = i + 1;
        }
        assert(self.overrides@.take(self.overrides@.len() as int) =~= self.overrides@);
        Ok(())
    }

    /// The budget for the whole of `file` under `model`.
    pub fn resolve_token_limit(&self, file: &str, model: &str) -> (r: Option<ResolvedBudget>)
        ensures
            resolved_view(r) == self.spec_resolve_token_limit(file@, model@),
    {
        let global = match self.rules.token_limit.models.get(model) {
            Some(g) => g,
            None => {
                return None;
            },
        };
        let mut acc = BudgetBuilder::start(global);
        let mut i: usize = 0;
        assert(self.overrides@.take(0) =~= Seq::<OverrideEntry>::empty());
        while i < self.overrides.len()
            invariant
                i <= self.overrides.len(),
                acc@ == fold_overrides(global@, self.overrides@.take(i as int), file@, model@),
            decreases self.overrides.len() - i,
        {
            assert(self.overrides@.take(i + 1).drop_last() =~= self.overrides@.take(i as int));
            acc = acc.apply_entry(&self.overrides[i], file, model);
            i = i + 1;
        }
        assert(self.overrides@.take(self.overrides@.len() as int) =~= self.overrides@);
        Some(acc.finish(model))
    }

    /// The front matter budget of `model`. No override applies to it.
    pub fn resolve_frontmatter_limit(&self, model: &str) -> (r: Option<ResolvedBudget>)
        ensures
            resolved_view(r) == self.spec_resolve_frontmatter_limit(model@),
    {
        match &self.rules.frontmatter_limit {
            Some(rule) => resolve_in_table(&rule.models, model),
            None => None,
        }
    }

    /// The skill index budget of `model`. No override applies to it.
    pub fn resolve_skill_index_budget(&self, model: &str) -> (r: Option<ResolvedBudget>)
        ensures
            resolved_view(r) == self.spec_resolve_skill_index_budget(model@),
    {
        match &self.rules.skill_index_budget {
            Some(rule) => resolve_in_table(&rule.models, model),
            None => None,
        }
    }
}

/// The model names of all overrides are those of the first `k` followed by
/// those of the rest.
pub proof fn lemma_override_models_split(overrides: Seq<OverrideEntry>, k: int)
    requires
        0 <= k <= overrides.len(),
    ensures
        override_models(overrides) == override_models(overrides.take(k)) + override_models(
            overrides.skip(k),
        ),
    decreases overrides.len() - k,
{
    if k == overrides.len() {
        assert(overrides.take(k) =~= overrides);
        assert(overrides.skip(k) =~= Seq::<OverrideEntry>::empty());
        assert(override_models(overrides) + Seq::<Seq<char>>::empty() =~= override_models(
            overrides,
        ));
    } else {
        let front = overrides.drop_last();
        lemma_override_models_split(front, k);
        assert(front.take(k) =~= overrides.take(k));
        assert(overrides.skip(k).drop_last() =~= front.skip(k));
        assert(overrides.skip(k).last() == overrides.last());
        let last = overrides.last().rules.token_limit.models.names();
        assert((override_models(overrides.take(k)) + override_models(front.skip(k))) + last
            =~= override_models(overrides.take(k)) + (override_models(front.skip(k)) + last));
    }
}

fn unsupported(model: String) -> (e: LintError)
    ensures
        e matches LintError::UnsupportedModel(m, names) && m == model && string_views(names@)
            == supported_models(),
{
    let all = supported_model_names();
    let mut names: Vec<String> = Vec::new();
    let mut i: usize = 0;
    while i < all.len()
        invariant
            i <= all.len(),
            string_views(names@) == static_views(all@).take(i as int),
        decreases all.len() - i,
    {
        let ghost before = names@;
        let name: &str = all[i];
        let owned = name.to_string();
        assert(owned@ == static_views(all@)[i as int]);
        names.push(owned);
        assert(string_views(names@) =~= string_views(before).push(owned@));
        i = i + 1;
        assert(string_views(names@) =~= static_views(all@).take(i as int));
    }
    assert(string_views(names@) =~= static_views(all@));
    LintError::UnsupportedModel(model, names)
}

fn unsupported_in<V>(table: &Table<V>) -> (r: Option<String>)
    ensures
        optional_view(r) == first_unsupported(table.names()),
{
    let n = table.len();
    let ghost names = table.names();
    let mut i: usize = 0;
    assert(names.skip(0) =~= names);
    while i < n
        invariant
            i <= n,
            n == names.len(),
            names == table.names(),
            first_unsupported(names) == first_unsupported(names.skip(i as int)),
        decreases n - i,
    {
        let name = table.name_at(i);
        assert(names.skip(i as int)[0] == names[i as int]);
        assert(names.skip(i as int).drop_first() =~= names.skip(i + 1));
        if default_encoding(name.as_str()).is_none() {
            return Some(name.clone());
        }
        i = i + 1;
    }
    None
}

fn resolve_in_table(table: &Table<ModelBudget>, model: &str) -> (r: Option<ResolvedBudget>)
    ensures
        resolved_view(r) == resolve_in(*table, model@),
{
    match table.get(model) {
        Some(b) => Some(BudgetBuilder::start(b).finish(model)),
        None => None,
    }
}

fn names_file(entry: &OverrideEntry, file: &str) -> (r: bool)
    ensures
        r == entry_names(*entry, file@),
{
    let ghost all = string_views(entry.files@);
    let mut i: usize = 0;
    while i < entry.files.len()
        invariant
            i <= entry.files.len(),
            all == string_views(entry.files@),
            forall|j: int| 0 <= j < i ==> #[trigger] all[j] != file@,
        decreases entry.files.len() - i,
    {
        if same_text(entry.files[i].as_str(), file) {
            assert(all[i as int] == file@);
            return true;
        }
        i = i + 1;
    }
    false
}

/// A budget under construction: the global budget, to which overrides are
/// applied one after the other.
pub struct BudgetBuilder {
    pub encoding: Option<String>,
    pub warning: usize,
    pub error: usize,
}

impl View for BudgetBuilder {
    type V = BudgetView;

    open spec fn view(&self) -> BudgetView {
        BudgetView {
            encoding: optional_view(self.encoding),
            warning: self.warning as nat,
            error: self.error as nat,
        }
    }
}

impl BudgetBuilder {
    /// Starts from a global budget.
    pub fn start(global: &ModelBudget) -> (b: Self)
        ensures
            b@ == global@,
    {
        BudgetBuilder {
            encoding: match &global.encoding {
                Some(e) => Some(e.clone()),
                None => None,
            },
            warning: global.warning,
            error: global.error,
        }
    }

    /// Replaces each field that `o` sets.
    pub fn apply(self, o: &OverrideModelBudget) -> (b: Self)
        ensures
            b@ == apply_override(self@, *o),
    {
        BudgetBuilder {
            encoding: match &o.encoding {
                Some(e) => Some(e.clone()),
                None => self.encoding,
            },
            warning: match o.warning {
                Some(w) => w,
                None => self.warning,
            },
            error: match o.error {
                Some(e) => e,
                None => self.error,
            },
        }
    }

    /// Applies `entry` if it names `file` and overrides `model`.
    pub fn apply_entry(self, entry: &OverrideEntry, file: &str, model: &str) -> (b: Self)
        ensures
            b@ == apply_entry(self@, *entry, file@, model@),
    {
        if names_file(entry, file) {
            match entry.rules.token_limit.models.get(model) {
                Some(o) => self.apply(o),
                None => self,
            }
        } else {
            self
        }
    }

    /// The budget that results, its encoding made concrete.
    pub fn finish(self, model: &str) -> (b: ResolvedBudget)
        ensures
            b@ == finish(self@, model@),
    {
        let encoding = match self.encoding {
            Some(e) => e,
            None => match default_encoding(model) {
                Some(d) => d.to_string(),
                None => "cl100k_base".to_string(),
            },
        };
        ResolvedBudget { encoding, warning: self.warning, error: self.error }
    }
}

/// A budget that no override changes stays as it is.
pub proof fn lemma_fold_without_match(
    acc: BudgetView,
    overrides: Seq<OverrideEntry>,
    file: Seq<char>,
    model: Seq<char>,
)
    requires
        forall|i: int|
            0 <= i < overrides.len() ==> !entry_names(#[trigger] overrides[i], file),
    ensures
        fold_overrides(acc, overrides, file, model) == acc,
    decreases overrides.len(),
{
    if overrides.len() > 0 {
        let front = overrides.drop_last();
        assert forall|i: int| 0 <= i < front.len() implies !entry_names(
            #[trigger] front[i],
            file,
        ) by {
            assert(front[i] == overrides[i]);
        }
        lemma_fold_without_match(acc, front, file, model);
        assert(!entry_names(overrides[overrides.len() - 1], file));
    }
}

/// What `entry` overrides for `model` in `file`, if anything.
pub open spec fn applicable(entry: OverrideEntry, file: Seq<char>, model: Seq<char>) -> Option<
    OverrideModelBudget,
> {
    if entry_names(entry, file) {
        entry.rules.token_limit.models.spec_get(model)
    } else {
        None
    }
}

/// A field that no applicable override sets passes through.
pub proof fn lemma_fold_keeps_unset_fields(
    acc: BudgetView,
    overrides: Seq<OverrideEntry>,
    file: Seq<char>,
    model: Seq<char>,
)
    ensures
        (forall|i: int|
            0 <= i < overrides.len() ==> (applicable(#[trigger] overrides[i], file, model)
                matches Some(o) ==> o.warning is None)) ==> fold_overrides(
            acc,
            overrides,
            file,
            model,
        ).warning == acc.warning,
        (forall|i: int|
            0 <= i < overrides.len() ==> (applicable(#[trigger] overrides[i], file, model)
                matches Some(o) ==> o.error is None)) ==> fold_overrides(
            acc,
            overrides,
            file,
            model,
        ).error == acc.error,
        (forall|i: int|
            0 <= i < overrides.len() ==> (applicable(#[trigger] overrides[i], file, model)
                matches Some(o) ==> o.encoding is None)) ==> fold_overrides(
            acc,
            overrides,
            file,
            model,
        ).encoding == acc.encoding,
    decreases overrides.len(),
{
    if overrides.len() > 0 {
        let front = overrides.drop_last();
        lemma_fold_keeps_unset_fields(acc, front, file, model);
        let last = overrides[overrides.len() - 1];
        assert(last == overrides.last());
        if forall|i: int|
            0 <= i < overrides.len() ==> (applicable(#[trigger] overrides[i], file, model)
                matches Some(o) ==> o.warning is None) {
            assert forall|i: int| 0 <= i < front.len() implies (applicable(
                #[trigger] front[i],
                file,
                model,
            ) matches Some(o) ==> o.warning is None) by {
                assert(front[i] == overrides[i]);
            }
            assert(applicable(last, file, model) matches Some(o) ==> o.warning is None);
        }
        if forall|i: int|
            0 <= i < overrides.len() ==> (applicable(#[trigger] overrides[i], file, model)
                matches Some(o) ==> o.error is None) {
            assert forall|i: int| 0 <= i < front.len() implies (applicable(
                #[trigger] front[i],
                file,
                model,
            ) matches Some(o) ==> o.error is None) by {
                assert(front[i] == overrides[i]);
            }
            assert(applicable(last, file, model) matches Some(o) ==> o.error is None);
        }
        if forall|i: int|
            0 <= i < overrides.len() ==> (applicable(#[trigger] overrides[i], file, model)
                matches Some(o) ==> o.encoding is None) {
            assert forall|i: int| 0 <= i < front.len() implies (applicable(
                #[trigger] front[i],
                file,
                model,
            ) matches Some(o) ==> o.encoding is None) by {
                assert(front[i] == overrides[i]);
            }
            assert(applicable(last, file, model) matches Some(o) ==> o.encoding is None);
        }
    }
}

/// Of the overrides that set the warning threshold, the last one decides.
pub proof fn lemma_fold_last_warning_wins(
    acc: BudgetView,
    overrides: Seq<OverrideEntry>,
    file: Seq<char>,
    model: Seq<char>,
    k: int,
    warning: usize,
)
    requires
        0 <= k < overrides.len(),
        applicable(overrides[k], file, model) matches Some(o) && o.warning == Some(warning),
        forall|i: int|
            k < i < overrides.len() ==> (applicable(#[trigger] overrides[i], file, model)
                matches Some(o) ==> o.warning is None),
    ensures
        fold_overrides(acc, overrides, file, model).warning == warning,
    decreases overrides.len(),
{
    let front = overrides.drop_last();
    let last = overrides[overrides.len() - 1];
    assert(last == overrides.last());
    if k < overrides.len() - 1 {
        assert(front[k] == overrides[k]);
        assert forall|i: int| k < i < front.len() implies (applicable(
            #[trigger] front[i],
            file,
            model,
        ) matches Some(o) ==> o.warning is None) by {
            assert(front[i] == overrides[i]);
        }
        lemma_fold_last_warning_wins(acc, front, file, model, k, warning);
        assert(applicable(last, file, model) matches Some(o) ==> o.warning is None);
    }
}

/// Of the overrides that set the error threshold, the last one decides.
pub proof fn lemma_fold_last_error_wins(
    acc: BudgetView,
    overrides: Seq<OverrideEntry>,
    file: Seq<char>,
    model: Seq<char>,
    k: int,
    error: usize,
)
    requires
        0 <= k < overrides.len(),
        applicable(overrides[k], file, model) matches Some(o) && o.error == Some(error),
        forall|i: int|
            k < i < overrides.len() ==> (applicable(#[trigger] overrides[i], file, model)
                matches Some(o) ==> o.error is None),
    ensures
        fold_overrides(acc, overrides, file, model).error == error,
    decreases overrides.len(),
{
    let front = overrides.drop_last();
    let last = overrides[overrides.len() - 1];
    assert(last == overrides.last());
    if k < overrides.len() - 1 {
        assert(front[k] == overrides[k]);
        assert forall|i: int| k < i < front.len() implies (applicable(
            #[trigger] front[i],
            file,
            model,
        ) matches Some(o) ==> o.error is None) by {
            assert(front[i] == overrides[i]);
        }
        lemma_fold_last_error_wins(acc, front, file, model, k, error);
        assert(applicable(last, file, model) matches Some(o) ==> o.error is None);
    }
}

/// Of the overrides that set the encoding, the last one decides.
pub proof fn lemma_fold_last_encoding_wins(
    acc: BudgetView,
    overrides: Seq<OverrideEntry>,
    file: Seq<char>,
    model: Seq<char>,
    k: int,
    encoding: Seq<char>,
)
    requires
        0 <= k < overrides.len(),
        applicable(overrides[k], file, model) matches Some(o) && optional_view(o.encoding)
            == Some(encoding),
        forall|i: int|
            k < i < overrides.len() ==> (applicable(#[trigger] overrides[i], file, model)
                matches Some(o) ==> o.encoding is None),
    ensures
        fold_overrides(acc, overrides, file, model).encoding == Some(encoding),
    decreases overrides.len(),
{
    let front = overrides.drop_last();
    let last = overrides[overrides.len() - 1];
    assert(last == overrides.last());
    if k < overrides.len() - 1 {
        assert(front[k] == overrides[k]);
        assert forall|i: int| k < i < front.len() implies (applicable(
            #[trigger] front[i],
            file,
            model,
        ) matches Some(o) ==> o.encoding is None) by {
            assert(front[i] == overrides[i]);
        }
        lemma_fold_last_encoding_wins(acc, front, file, model, k, encoding);
        assert(applicable(last, file, model) matches Some(o) ==> o.encoding is None);
    }
}

/// An encoding that an override sets is the encoding of the resolved
/// budget, before the global encoding and the model's default.
pub proof fn lemma_resolve_override_encoding(
    config: Config,
    file: Seq<char>,
    model: Seq<char>,
    k: int,
    encoding: Seq<char>,
)
    requires
        config.rules.token_limit.models.spec_get(model) is Some,
        0 <= k < config.overrides@.len(),
        applicable(config.overrides@[k], file, model) matches Some(o) && optional_view(
            o.encoding,
        ) == Some(encoding),
        forall|i: int|
            k < i < config.overrides@.len() ==> (applicable(
                #[trigger] config.overrides@[i],
                file,
                model,
            ) matches Some(o) ==> o.encoding is None),
    ensures
        config.spec_resolve_token_limit(file, model) matches Some(budget) && budget.encoding
            == encoding,
{
    let global = config.rules.token_limit.models.spec_get(model)->Some_0;
    lemma_fold_last_encoding_wins(global@, config.overrides@, file, model, k, encoding);
}

/// A file that no override names gets the global budget of the model,
/// unchanged.
pub proof fn lemma_resolve_unnamed_file(config: Config, file: Seq<char>, model: Seq<char>)
    requires
        forall|i: int|
            0 <= i < config.overrides@.len() ==> !entry_names(
                #[trigger] config.overrides@[i],
                file,
            ),
    ensures
        config.spec_resolve_token_limit(file, model) == resolve_in(
            config.rules.token_limit.models,
            model,
        ),
{
    match config.rules.token_limit.models.spec_get(model) {
        Some(global) => {
            lemma_fold_without_match(global@, config.overrides@, file, model);
        },
        None => {},
    }
}

/// Where the overrides for a file set only the warning threshold, the
/// resolved budget has the warning threshold of the last of them and the
/// error threshold of the global budget.
pub proof fn lemma_resolve_override_passes_through(
    config: Config,
    file: Seq<char>,
    model: Seq<char>,
    k: int,
    warning: usize,
)
    requires
        config.rules.token_limit.models.spec_get(model) is Some,
        0 <= k < config.overrides@.len(),
        applicable(config.overrides@[k], file, model) matches Some(o) && o.warning == Some(
            warning,
        ),
        forall|i: int|
            k < i < config.overrides@.len() ==> (applicable(
                #[trigger] config.overrides@[i],
                file,
                model,
            ) matches Some(o) ==> o.warning is None),
        forall|i: int|
            0 <= i < config.overrides@.len() ==> (applicable(
                #[trigger] config.overrides@[i],
                file,
                model,
            ) matches Some(o) ==> o.error is None),
    ensures
        config.spec_resolve_token_limit(file, model) matches Some(budget) && budget.warning
            == warning && budget.error == config.rules.token_limit.models.spec_get(
            model,
        )->Some_0.error,
{
    let global = config.rules.token_limit.models.spec_get(model)->Some_0;
    lemma_fold_last_warning_wins(global@, config.overrides@, file, model, k, warning);
    lemma_fold_keeps_unset_fields(global@, config.overrides@, file, model);
}

} // verus!
