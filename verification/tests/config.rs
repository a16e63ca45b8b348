use skills_lint_core::config::{
    default_encoding, supported_model_names, Config, FrontmatterLimitConfig, ModelBudget,
    OverrideEntry, OverrideModelBudget, OverrideRules, OverrideTokenLimit, RulesConfig,
    SkillIndexBudgetConfig, TokenLimitConfig,
};
use skills_lint_core::errors::LintError;
use skills_lint_core::table::Table;

fn budgets(entries: &[(&str, usize, usize)]) -> Table<ModelBudget> {
    let mut table = Table::new();
    for (model, warning, error) in entries {
        table.insert(
            model.to_string(),
            ModelBudget { encoding: None, warning: *warning, error: *error },
        );
    }
    table
}

fn config_with(token_limit: &[(&str, usize, usize)]) -> Config {
    Config {
        patterns: vec!["*.md".to_string()],
        rules: RulesConfig {
            token_limit: TokenLimitConfig { models: budgets(token_limit) },
            skill_index_budget: None,
            frontmatter_limit: None,
            skill_structure: None,
            unique_name: None,
            unique_description: None,
        },
        overrides: Vec::new(),
        cache: true,
    }
}

fn override_for(
    files: &[&str],
    model: &str,
    encoding: Option<&str>,
    warning: Option<usize>,
    error: Option<usize>,
) -> OverrideEntry {
    let mut models = Table::new();
    models.insert(
        model.to_string(),
        OverrideModelBudget { encoding: encoding.map(|e| e.to_string()), warning, error },
    );
    OverrideEntry {
        files: files.iter().map(|f| f.to_string()).collect(),
        rules: OverrideRules { token_limit: OverrideTokenLimit { models } },
    }
}

#[test]
fn test_resolve_global_budget() {
    let config = config_with(&[("gpt-4", 8000, 12000)]);
    let budget = config.resolve_token_limit("foo.md", "gpt-4").unwrap();
    assert_eq!(budget.warning, 8000);
    assert_eq!(budget.error, 12000);
    assert_eq!(budget.encoding, "cl100k_base");
}

#[test]
fn test_resolve_with_override() {
    let mut config = config_with(&[("gpt-4o", 8000, 12000)]);
    config.overrides.push(override_for(&["big.md"], "gpt-4o", None, Some(16000), Some(24000)));

    let normal = config.resolve_token_limit("foo.md", "gpt-4o").unwrap();
    assert_eq!(normal.warning, 8000);
    assert_eq!(normal.encoding, "o200k_base");

    let overridden = config.resolve_token_limit("big.md", "gpt-4o").unwrap();
    assert_eq!(overridden.warning, 16000);
    assert_eq!(overridden.error, 24000);
    assert_eq!(overridden.encoding, "o200k_base");
}

#[test]
fn test_unknown_model_returns_none() {
    let config = config_with(&[("gpt-4", 8000, 12000)]);
    assert!(config.resolve_token_limit("foo.md", "unknown-model").is_none());
}

#[test]
fn test_default_encoding_lookup() {
    assert_eq!(default_encoding("gpt-5"), Some("o200k_base"));
    assert_eq!(default_encoding("gpt-4o"), Some("o200k_base"));
    assert_eq!(default_encoding("gpt-4o-mini"), Some("o200k_base"));
    assert_eq!(default_encoding("gpt-4"), Some("cl100k_base"));
    assert_eq!(default_encoding("gpt-4-turbo"), Some("cl100k_base"));
    assert_eq!(default_encoding("gpt-3.5-turbo"), Some("cl100k_base"));
    assert_eq!(default_encoding("unknown"), None);
}

#[test]
fn test_validate_rejects_unsupported_model() {
    let config = config_with(&[("not-a-real-model", 8000, 12000)]);
    assert!(config.validate().is_err());
}

#[test]
fn test_resolve_skill_index_budget() {
    let mut config = config_with(&[("gpt-4o", 8000, 16000)]);
    config.rules.skill_index_budget =
        Some(SkillIndexBudgetConfig { models: budgets(&[("gpt-4o", 2000, 4000)]) });
    let budget = config.resolve_skill_index_budget("gpt-4o").unwrap();
    assert_eq!(budget.warning, 2000);
    assert_eq!(budget.error, 4000);
    assert_eq!(budget.encoding, "o200k_base");
}

#[test]
fn test_resolve_skill_index_budget_unconfigured() {
    let config = config_with(&[("gpt-4", 8000, 12000)]);
    assert!(config.resolve_skill_index_budget("gpt-4").is_none());
}

#[test]
fn test_validate_rejects_unsupported_model_in_skill_index_budget() {
    let mut config = config_with(&[("gpt-4", 8000, 12000)]);
    config.rules.skill_index_budget =
        Some(SkillIndexBudgetConfig { models: budgets(&[("not-a-real-model", 2000, 4000)]) });
    assert!(config.validate().is_err());
}

#[test]
fn validate_accepts_supported_models_everywhere() {
    let mut config = config_with(&[("gpt-4", 8000, 12000), ("gpt-5", 1, 2)]);
    config.rules.skill_index_budget =
        Some(SkillIndexBudgetConfig { models: budgets(&[("gpt-4o", 2000, 4000)]) });
    config.rules.frontmatter_limit =
        Some(FrontmatterLimitConfig { models: budgets(&[("gpt-4o-mini", 2000, 4000)]) });
    config.overrides.push(override_for(&["a.md"], "gpt-3.5-turbo", None, Some(1), None));
    assert!(config.validate().is_ok());
}

#[test]
fn validate_names_the_offending_model_and_the_supported_ones() {
    let mut config = config_with(&[("gpt-4", 8000, 12000)]);
    config.rules.frontmatter_limit =
        Some(FrontmatterLimitConfig { models: budgets(&[("gpt-9", 2000, 4000)]) });
    match config.validate() {
        Err(LintError::UnsupportedModel(model, supported)) => {
            assert_eq!(model, "gpt-9");
            assert_eq!(
                supported,
                vec!["gpt-5", "gpt-4o", "gpt-4o-mini", "gpt-4-turbo", "gpt-4", "gpt-3.5-turbo"]
            );
        }
        other => panic!("unexpected result: {:?}", other),
    }
}

#[test]
fn validate_rejects_unsupported_model_in_override() {
    let mut config = config_with(&[("gpt-4", 8000, 12000)]);
    config.overrides.push(override_for(&["a.md"], "gpt-4", None, Some(1), None));
    config.overrides.push(override_for(&["b.md"], "gpt-2", None, Some(1), None));
    match config.validate() {
        Err(LintError::UnsupportedModel(model, _)) => assert_eq!(model, "gpt-2"),
        other => panic!("unexpected result: {:?}", other),
    }
}

#[test]
fn validate_reports_token_limit_before_other_rules() {
    let mut config = config_with(&[("zeta", 8000, 12000), ("alpha", 1, 2)]);
    config.rules.skill_index_budget =
        Some(SkillIndexBudgetConfig { models: budgets(&[("aaa", 2000, 4000)]) });
    match config.validate() {
        Err(LintError::UnsupportedModel(model, _)) => assert_eq!(model, "alpha"),
        other => panic!("unexpected result: {:?}", other),
    }
}

#[test]
fn supported_model_names_lists_all_six() {
    assert_eq!(
        supported_model_names(),
        vec!["gpt-5", "gpt-4o", "gpt-4o-mini", "gpt-4-turbo", "gpt-4", "gpt-3.5-turbo"]
    );
}

#[test]
fn override_sets_only_the_fields_it_names() {
    let mut config = config_with(&[("gpt-4", 8000, 12000)]);
    config.overrides.push(override_for(&["F.md"], "gpt-4", None, Some(16000), None));
    let overridden = config.resolve_token_limit("F.md", "gpt-4").unwrap();
    assert_eq!(overridden.warning, 16000);
    assert_eq!(overridden.error, 12000);
    assert_eq!(overridden.encoding, "cl100k_base");
    let other = config.resolve_token_limit("other.md", "gpt-4").unwrap();
    assert_eq!(other.warning, 8000);
    assert_eq!(other.error, 12000);
}

#[test]
fn later_override_wins_field_by_field() {
    let mut config = config_with(&[("gpt-4", 8000, 12000)]);
    config.overrides.push(override_for(&["F.md"], "gpt-4", Some("p50k_base"), Some(1), Some(2)));
    config.overrides.push(override_for(&["F.md", "G.md"], "gpt-4", None, Some(3), None));
    let f = config.resolve_token_limit("F.md", "gpt-4").unwrap();
    assert_eq!(f.warning, 3);
    assert_eq!(f.error, 2);
    assert_eq!(f.encoding, "p50k_base");
    let g = config.resolve_token_limit("G.md", "gpt-4").unwrap();
    assert_eq!(g.warning, 3);
    assert_eq!(g.error, 12000);
    assert_eq!(g.encoding, "cl100k_base");
}

#[test]
fn override_matches_paths_exactly() {
    let mut config = config_with(&[("gpt-4", 8000, 12000)]);
    config.overrides.push(override_for(&["docs/*.md"], "gpt-4", None, Some(1), Some(2)));
    let budget = config.resolve_token_limit("docs/a.md", "gpt-4").unwrap();
    assert_eq!(budget.warning, 8000);
    assert_eq!(budget.error, 12000);
}

#[test]
fn override_for_another_model_changes_nothing() {
    let mut config = config_with(&[("gpt-4", 8000, 12000)]);
    config.overrides.push(override_for(&["F.md"], "gpt-4o", None, Some(1), Some(2)));
    let budget = config.resolve_token_limit("F.md", "gpt-4").unwrap();
    assert_eq!(budget.warning, 8000);
    assert_eq!(budget.error, 12000);
}

#[test]
fn encoding_priority_is_override_then_global_then_default_then_fallback() {
    let mut table = Table::new();
    table.insert(
        "gpt-4o".to_string(),
        ModelBudget { encoding: Some("r50k_base".to_string()), warning: 1, error: 2 },
    );
    table.insert("gpt-5".to_string(), ModelBudget { encoding: None, warning: 1, error: 2 });
    table.insert("mystery".to_string(), ModelBudget { encoding: None, warning: 1, error: 2 });
    let mut config = config_with(&[]);
    config.rules.token_limit = TokenLimitConfig { models: table };
    config.overrides.push(override_for(&["F.md"], "gpt-4o", Some("p50k_base"), None, None));
    assert_eq!(config.resolve_token_limit("F.md", "gpt-4o").unwrap().encoding, "p50k_base");
    assert_eq!(config.resolve_token_limit("G.md", "gpt-4o").unwrap().encoding, "r50k_base");
    assert_eq!(config.resolve_token_limit("G.md", "gpt-5").unwrap().encoding, "o200k_base");
    assert_eq!(config.resolve_token_limit("G.md", "mystery").unwrap().encoding, "cl100k_base");
}

#[test]
fn frontmatter_limit_ignores_overrides() {
    let mut config = config_with(&[("gpt-4", 8000, 12000)]);
    config.rules.frontmatter_limit =
        Some(FrontmatterLimitConfig { models: budgets(&[("gpt-4", 500, 1000)]) });
    config.overrides.push(override_for(&["F.md"], "gpt-4", None, Some(1), Some(2)));
    let budget = config.resolve_frontmatter_limit("gpt-4").unwrap();
    assert_eq!(budget.warning, 500);
    assert_eq!(budget.error, 1000);
    assert_eq!(budget.encoding, "cl100k_base");
    assert!(config.resolve_frontmatter_limit("gpt-4o").is_none());
    assert!(config_with(&[("gpt-4", 1, 2)]).resolve_frontmatter_limit("gpt-4").is_none());
}

#[test]
fn table_keeps_names_in_order_and_replaces_values() {
    let mut table: Table<usize> = Table::new();
    table.insert("b".to_string(), 1);
    table.insert("a".to_string(), 2);
    table.insert("c".to_string(), 3);
    table.insert("b".to_string(), 4);
    assert_eq!(table.len(), 3);
    assert_eq!(table.name_at(0), "a");
    assert_eq!(table.name_at(1), "b");
    assert_eq!(table.name_at(2), "c");
    assert_eq!(table.value_at(1), &4);
    assert_eq!(table.get("a"), Some(&2));
    assert_eq!(table.get("d"), None);
    let copy = table.clone();
    assert_eq!(copy.get("c"), Some(&3));
}
