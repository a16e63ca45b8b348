//! What a new project starts with: default budgets, a configuration made
//! from them, and an ignore entry for the cache directory.

use crate::config::{
    Config, FrontmatterLimitConfig, ModelBudget, RulesConfig, SkillIndexBudgetConfig,
    TokenLimitConfig,
};
use crate::table::Table;
use crate::text::{
    chars_of, extend_chars, lines, same_chars, same_text, split_lines, string_of, string_views,
    trim, trim_chars, views,
};
use vstd::prelude::*;

verus! {

/// Warning and error threshold of each rule for one model.
#[derive(Debug, Clone, Copy)]
pub struct ModelBudgets {
    pub token_limit: (usize, usize),
    pub frontmatter_limit: (usize, usize),
    pub skill_index_budget: (usize, usize),
}

/// The budgets that a model starts with.
pub open spec fn spec_default_budgets(model: Seq<char>) -> ModelBudgets {
    if model == "gpt-5"@ {
        ModelBudgets {
            token_limit: (16000, 32000),
            frontmatter_limit: (2000, 4000),
            skill_index_budget: (4000, 8000),
        }
    } else if model == "gpt-4"@ {
        ModelBudgets {
            token_limit: (2000, 4000),
            frontmatter_limit: (500, 1000),
            skill_index_budget: (1000, 2000),
        }
    } else if model == "gpt-3.5-turbo"@ {
        ModelBudgets {
            token_limit: (4000, 8000),
            frontmatter_limit: (500, 1000),
            skill_index_budget: (1000, 2000),
        }
    } else {
        ModelBudgets {
            token_limit: (8000, 16000),
            frontmatter_limit: (1000, 2000),
            skill_index_budget: (2000, 4000),
        }
    }
}

/// The rules that take budgets.
#[derive(Debug, Clone, Copy, PartialEq, Eq, Structural)]
pub enum BudgetRule {
    TokenLimit,
    FrontmatterLimit,
    SkillIndexBudget,
}

/// The budget that a model starts with under `rule`, with no encoding set.
pub open spec fn starting_budget(model: Seq<char>, rule: BudgetRule) -> (usize, usize) {
    let all = spec_default_budgets(model);
    match rule {
        BudgetRule::TokenLimit => all.token_limit,
        BudgetRule::FrontmatterLimit => all.frontmatter_limit,
        BudgetRule::SkillIndexBudget => all.skill_index_budget,
    }
}

/// The table that `build_model_budgets` gives for the first `n` of `models`:
/// what it holds for `name`.
pub open spec fn starting_entry(
    models: Seq<Seq<char>>,
    rule: BudgetRule,
    name: Seq<char>,
) -> Option<(usize, usize)> {
    if models.contains(name) {
        Some(starting_budget(name, rule))
    } else {
        None
    }
}

/// Whether `table` holds for each of `models` its starting budget under
/// `rule`, with no encoding, and nothing else.
pub open spec fn holds_starting_budgets(
    table: Table<ModelBudget>,
    models: Seq<Seq<char>>,
    rule: BudgetRule,
) -> bool {
    forall|name: Seq<char>|
        match #[trigger] table.spec_get(name) {
            Some(b) => b.encoding is None && starting_entry(models, rule, name) == Some(
                (b.warning, b.error),
            ),
            None => starting_entry(models, rule, name) is None,
        }
}

/// The entry that keeps the cache directory out of version control.
pub open spec fn cache_ignore_entry() -> Seq<char> {
    ".skills-lint-cache/"@
}

/// Whether a line of `content` is the cache's ignore entry, whitespace
/// around it set aside.
pub open spec fn ignores_cache(content: Seq<char>) -> bool {
    exists|i: int|
        0 <= i < lines(content).len() && trim(#[trigger] lines(content)[i])
            == cache_ignore_entry()
}

/// An ignore file with the cache's entry appended on a line of its own.
pub open spec fn with_cache_entry(content: Seq<char>) -> Seq<char> {
    let separator: Seq<char> = if content.len() == 0 || content.last() == '\n' {
        Seq::empty()
    } else {
        seq!['\n']
    };
    content + separator + cache_ignore_entry() + seq!['\n']
}

/// The budgets that a model starts with.
pub fn default_budgets(model: &str) -> (r: ModelBudgets)
    ensures
        r == spec_default_budgets(model@),
{
    if same_text(model, "gpt-5") {
        ModelBudgets {
            token_limit: (16000, 32000),
            frontmatter_limit: (2000, 4000),
            skill_index_budget: (4000, 8000),
        }
    } else if same_text(model, "gpt-4") {
        ModelBudgets {
            token_limit: (2000, 4000),
            frontmatter_limit: (500, 1000),
            skill_index_budget: (1000, 2000),
        }
    } else if same_text(model, "gpt-3.5-turbo") {
        ModelBudgets {
            token_limit: (4000, 8000),
            frontmatter_limit: (500, 1000),
            skill_index_budget: (1000, 2000),
        }
    } else {
        ModelBudgets {
            token_limit: (8000, 16000),
            frontmatter_limit: (1000, 2000),
            skill_index_budget: (2000, 4000),
        }
    }
}

/// A table with the starting budget of each of `models` under `rule`.
pub fn build_model_budgets(models: &Vec<String>, rule: BudgetRule) -> (table: Table<ModelBudget>)
    ensures
        holds_starting_budgets(table, string_views(models@), rule),
{
    let ghost all = string_views(models@);
    let mut table: Table<ModelBudget> = Table::new();
    assert forall|name: Seq<char>| table.spec_get(name) is None by {
        assert(!table.names().contains(name));
    }
    let mut i: usize = 0;
    assert(all.take(0) =~= Seq::<Seq<char>>::empty());
    while i < models.len()
        invariant
            i <= models.len(),
            all == string_views(models@),
            holds_starting_budgets(table, all.take(i as int), rule),
        decreases models.len() - i,
    {
        let ghost before = table;
        let budgets = default_budgets(models[i].as_str());
        let (warning, error) = match rule {
            BudgetRule::TokenLimit => budgets.token_limit,
            BudgetRule::FrontmatterLimit => budgets.frontmatter_limit,
            BudgetRule::SkillIndexBudget => budgets.skill_index_budget,
        };
        table.insert(models[i].clone(), ModelBudget { encoding: None, warning, error });
        i = i + 1;
        assert forall|name: Seq<char>|
            match #[trigger] table.spec_get(name) {
                Some(b) => b.encoding is None && starting_entry(all.take(i as int), rule, name)
                    == Some((b.warning, b.error)),
                None => starting_entry(all.take(i as int), rule, name) is None,
            } by {
            let now = all.take(i as int);
            let earlier = all.take(i - 1);
            assert(now.drop_last() =~= earlier);
            assert(now[i - 1] == all[i - 1]);
            if earlier.contains(name) {
                let k = choose|k: int| 0 <= k < earlier.len() && earlier[k] == name;
                assert(now[k] == name);
            }
            if now.contains(name) && name != all[i - 1] {
                let k = choose|k: int| 0 <= k < now.len() && now[k] == name;
                assert(earlier[k] == name);
            }
            if name != all[i - 1] {
                assert(table.spec_get(name) == before.spec_get(name));
            }
        }
    }
    assert(all.take(all.len() as int) =~= all);
    table
}

fn lists(names: &Vec<String>, name: &str) -> (r: bool)
    ensures
        r == string_views(names@).contains(name@),
{
    let ghost all = string_views(names@);
    let mut i: usize = 0;
    while i < names.len()
        invariant
            i <= names.len(),
            all == string_views(names@),
            forall|j: int| 0 <= j < i ==> #[trigger] all[j] != name@,
        decreases names.len() - i,
    {
        if same_text(names[i].as_str(), name) {
            assert(all[i as int] == name@);
            return true;
        }
        i = i + 1;
    }
    false
}

/// `Some(true)` if `rules` lists `name`, else `None`.
pub open spec fn switched_on(rules: Seq<Seq<char>>, name: Seq<char>) -> Option<bool> {
    if rules.contains(name) {
        Some(true)
    } else {
        None
    }
}

/// The configuration that a new project starts with: the one pattern, a
/// token limit with the starting budget of each model, each optional rule
/// that `optional_rules` lists, no overrides, and the cache on.
pub fn build_config(pattern: &str, models: &Vec<String>, optional_rules: &Vec<String>) -> (config:
    Config)
    ensures
        string_views(config.patterns@) == seq![pattern@],
        config.overrides@.len() == 0,
        config.cache,
        holds_starting_budgets(
            config.rules.token_limit.models,
            string_views(models@),
            BudgetRule::TokenLimit,
        ),
        match config.rules.frontmatter_limit {
            Some(rule) => string_views(optional_rules@).contains("frontmatter-limit"@)
                && holds_starting_budgets(
                rule.models,
                string_views(models@),
                BudgetRule::FrontmatterLimit,
            ),
            None => !string_views(optional_rules@).contains("frontmatter-limit"@),
        },
        match config.rules.skill_index_budget {
            Some(rule) => string_views(optional_rules@).contains("skill-index-budget"@)
                && holds_starting_budgets(
                rule.models,
                string_views(models@),
                BudgetRule::SkillIndexBudget,
            ),
            None => !string_views(optional_rules@).contains("skill-index-budget"@),
        },
        config.rules.skill_structure == switched_on(
            string_views(optional_rules@),
            "skill-structure"@,
        ),
        config.rules.unique_name == switched_on(string_views(optional_rules@), "unique-name"@),
        config.rules.unique_description == switched_on(
            string_views(optional_rules@),
            "unique-description"@,
        ),
{
    let mut patterns: Vec<String> = Vec::new();
    patterns.push(pattern.to_string());
    assert(string_views(patterns@) =~= seq![pattern@]);
    let token_limit = TokenLimitConfig {
        models: build_model_budgets(models, BudgetRule::TokenLimit),
    };
    let frontmatter_limit = if lists(optional_rules, "frontmatter-limit") {
        Some(
            FrontmatterLimitConfig {
                models: build_model_budgets(models, BudgetRule::FrontmatterLimit),
            },
        )
    } else {
        None
    };
    let skill_index_budget = if lists(optional_rules, "skill-index-budget") {
        Some(
            SkillIndexBudgetConfig {
                models: build_model_budgets(models, BudgetRule::SkillIndexBudget),
            },
        )
    } else {
        None
    };
    let skill_structure = if lists(optional_rules, "skill-structure") {
        Some(true)
    } else {
        None
    };
    let unique_name = if lists(optional_rules, "unique-name") {
        Some(true)
    } else {
        None
    };
    let unique_description = if lists(optional_rules, "unique-description") {
        Some(true)
    } else {
        None
    };
    Config {
        patterns,
        rules: RulesConfig {
            token_limit,
            skill_index_budget,
            frontmatter_limit,
            skill_structure,
            unique_name,
            unique_description,
        },
        overrides: Vec::new(),
        cache: true,
    }
}

/// What an ignore file is to be replaced with so that it holds the cache's
/// entry: `None` if a line of it is the entry already, else the file with
/// the entry appended.
pub fn update_gitignore(content: &str) -> (r: Option<String>)
    ensures
        match r {
            Some(updated) => !ignores_cache(content@) && updated@ == with_cache_entry(content@),
            None => ignores_cache(content@),
        },
{
    let chars = chars_of(content);
    let entry = chars_of(".skills-lint-cache/");
    let ls = split_lines(&chars);
    let ghost model = lines(content@);
    let mut i: usize = 0;
    while i < ls.len()
        invariant
            i <= ls.len(),
            model == views(ls@),
            model == lines(content@),
            entry@ == cache_ignore_entry(),
            forall|j: int| 0 <= j < i ==> trim(#[trigger] model[j]) != cache_ignore_entry(),
        decreases ls.len() - i,
    {
        assert(model[i as int] == ls@[i as int]@);
        let t = trim_chars(&ls[i]);
        if same_chars(&t, &entry) {
            return None;
        }
        i = i + 1;
    }
    let mut out: Vec<char> = Vec::new();
    extend_chars(&mut out, &chars);
    if chars.len() > 0 && chars[chars.len() - 1] != '\n' {
        out.push('\n');
    }
    extend_chars(&mut out, &entry);
    out.push('\n');
    assert(out@ =~= with_cache_entry(content@));
    Some(string_of(&out))
}

} // verus!
