use skills_lint_core::cache::{cache_key, TokenCache};
use skills_lint_core::config::{
    Config, FrontmatterLimitConfig, ModelBudget, OverrideEntry, OverrideModelBudget,
    OverrideRules, OverrideTokenLimit, RulesConfig, SkillIndexBudgetConfig, TokenLimitConfig,
};
use skills_lint_core::document::SourceFile;
use skills_lint_core::errors::LintError;
use skills_lint_core::lint::{check_structure, lint_file, run, run_single};
use skills_lint_core::table::Table;
use skills_lint_core::tokenizer::count_tokens;
use skills_lint_core::types::{LintFinding, LintReport, Severity, StructureFinding};

fn budgets(entries: &[(&str, Option<&str>, usize, usize)]) -> Table<ModelBudget> {
    let mut table = Table::new();
    for (model, encoding, warning, error) in entries {
        table.insert(
            model.to_string(),
            ModelBudget {
                encoding: encoding.map(|e| e.to_string()),
                warning: *warning,
                error: *error,
            },
        );
    }
    table
}

fn config_with(token_limit: &[(&str, Option<&str>, usize, usize)]) -> Config {
    Config {
        patterns: Vec::new(),
        rules: RulesConfig {
            token_limit: TokenLimitConfig { models: budgets(token_limit) },
            skill_index_budget: None,
            frontmatter_limit: None,
            skill_structure: None,
            unique_name: None,
            unique_description: None,
        },
        overrides: Vec::new(),
        cache: true,
    }
}

fn file(path: &str, content: &str) -> SourceFile {
    SourceFile { path: path.to_string(), content: content.to_string() }
}

fn token(severity: Severity) -> LintFinding {
    LintFinding {
        rule: "token-limit".to_string(),
        file: "a.md".to_string(),
        model: "gpt-4".to_string(),
        token_count: 1,
        warning_threshold: 2,
        error_threshold: 3,
        severity,
    }
}

fn structure(severity: Severity) -> StructureFinding {
    StructureFinding {
        rule: "skill-structure".to_string(),
        file: "a.md".to_string(),
        message: "m".to_string(),
        severity,
    }
}

#[test]
fn worst_severity_of_nothing_is_pass() {
    assert_eq!(LintReport::new(Vec::new(), Vec::new()).worst_severity(), Severity::Pass);
}

#[test]
fn worst_severity_is_error_if_any_finding_is() {
    let report = LintReport::new(
        vec![token(Severity::Pass), token(Severity::Warning), token(Severity::Pass)],
        vec![structure(Severity::Pass), structure(Severity::Error), structure(Severity::Pass)],
    );
    assert_eq!(report.worst_severity(), Severity::Error);
    let report = LintReport::new(
        vec![token(Severity::Error), token(Severity::Warning)],
        vec![structure(Severity::Pass)],
    );
    assert_eq!(report.worst_severity(), Severity::Error);
}

#[test]
fn worst_severity_is_warning_without_errors() {
    let report = LintReport::new(
        vec![token(Severity::Pass), token(Severity::Warning)],
        vec![structure(Severity::Pass)],
    );
    assert_eq!(report.worst_severity(), Severity::Warning);
    let report = LintReport::new(vec![token(Severity::Pass)], vec![structure(Severity::Pass)]);
    assert_eq!(report.worst_severity(), Severity::Pass);
    let report = LintReport::new(Vec::new(), vec![structure(Severity::Warning)]);
    assert_eq!(report.worst_severity(), Severity::Warning);
}

#[test]
fn severities_are_ordered_and_labelled() {
    assert!(Severity::Pass < Severity::Warning);
    assert!(Severity::Warning < Severity::Error);
    assert_eq!(Severity::Pass.max(Severity::Warning), Severity::Warning);
    assert_eq!(Severity::Error.max(Severity::Warning), Severity::Error);
    assert_eq!(Severity::Pass.max(Severity::Pass), Severity::Pass);
    assert_eq!(Severity::Pass.label(), "PASS");
    assert_eq!(Severity::Warning.label(), "WARN");
    assert_eq!(Severity::Error.label(), "ERROR");
}

#[test]
fn lint_file_gives_one_finding_per_model_in_name_order() {
    let config = config_with(&[("gpt-4o", None, 4, 5), ("gpt-4", None, 5, 6)]);
    let findings = lint_file(&config, "a.md", "Hello, world!", None).unwrap();
    assert_eq!(findings.len(), 2);
    assert_eq!(findings[0].model, "gpt-4");
    assert_eq!(findings[0].rule, "token-limit");
    assert_eq!(findings[0].file, "a.md");
    assert_eq!(findings[0].token_count, 4);
    assert_eq!(findings[0].warning_threshold, 5);
    assert_eq!(findings[0].error_threshold, 6);
    assert_eq!(findings[0].severity, Severity::Pass);
    assert_eq!(findings[1].model, "gpt-4o");
    assert_eq!(findings[1].severity, Severity::Warning);
}

#[test]
fn lint_file_applies_overrides_to_the_named_file_only() {
    let mut config = config_with(&[("gpt-4", None, 100, 200)]);
    let mut models = Table::new();
    models.insert(
        "gpt-4".to_string(),
        OverrideModelBudget { encoding: None, warning: None, error: Some(1) },
    );
    config.overrides.push(OverrideEntry {
        files: vec!["big.md".to_string()],
        rules: OverrideRules { token_limit: OverrideTokenLimit { models } },
    });
    let big = lint_file(&config, "big.md", "Hello, world!", None).unwrap();
    assert_eq!(big[0].severity, Severity::Error);
    assert_eq!(big[0].warning_threshold, 100);
    assert_eq!(big[0].error_threshold, 1);
    let other = lint_file(&config, "other.md", "Hello, world!", None).unwrap();
    assert_eq!(other[0].severity, Severity::Pass);
    assert_eq!(other[0].error_threshold, 200);
}

#[test]
fn lint_file_appends_frontmatter_findings() {
    let mut config = config_with(&[("gpt-4", None, 100, 200)]);
    config.rules.frontmatter_limit = Some(FrontmatterLimitConfig {
        models: budgets(&[("gpt-4", None, 1, 2)]),
    });
    let doc = "---\nname: a\n---\nbody";
    let findings = lint_file(&config, "a.md", doc, None).unwrap();
    assert_eq!(findings.len(), 2);
    assert_eq!(findings[0].rule, "token-limit");
    assert_eq!(findings[0].token_count, count_tokens(doc, "cl100k_base").unwrap());
    assert_eq!(findings[1].rule, "frontmatter-limit");
    assert_eq!(findings[1].token_count, count_tokens("name: a", "cl100k_base").unwrap());
    assert_eq!(findings[1].severity, Severity::Error);
    assert_eq!(lint_file(&config, "b.md", "plain", None).unwrap().len(), 1);
}

#[test]
fn lint_file_without_models_gives_nothing() {
    assert!(lint_file(&config_with(&[]), "a.md", "text", None).unwrap().is_empty());
}

#[test]
fn lint_file_stops_at_an_unknown_encoding() {
    let config = config_with(&[("gpt-4", Some("nope"), 1, 2), ("gpt-4o", None, 1, 2)]);
    match lint_file(&config, "a.md", "text", None) {
        Err(LintError::UnknownEncoding(name)) => assert_eq!(name, "nope"),
        other => panic!("unexpected result: {:?}", other),
    }
}

#[test]
fn check_structure_runs_only_when_switched_on() {
    let mut config = config_with(&[]);
    assert!(check_structure(&config, "a.md", "x").is_none());
    config.rules.skill_structure = Some(false);
    assert!(check_structure(&config, "a.md", "x").is_none());
    config.rules.skill_structure = Some(true);
    let finding = check_structure(&config, "a.md", "x").unwrap();
    assert_eq!(finding.file, "a.md");
    assert_eq!(finding.severity, Severity::Error);
    let finding =
        check_structure(&config, "a.md", "---\nname: n\ndescription: d\n---\nbody").unwrap();
    assert_eq!(finding.severity, Severity::Pass);
    assert_eq!(finding.message, "valid");
}

#[test]
fn run_makes_both_passes_in_order() {
    let mut config = config_with(&[("gpt-4", None, 1000, 2000)]);
    config.rules.skill_index_budget = Some(SkillIndexBudgetConfig {
        models: budgets(&[("gpt-4", None, 1, 2)]),
    });
    config.rules.skill_structure = Some(true);
    config.rules.unique_name = Some(true);
    let files = vec![
        file("a.md", "---\nname: n\ndescription: d\n---\nbody"),
        file("b.md", "---\nname: n\ndescription: e\n---\nbody"),
    ];
    let mut cache = TokenCache::new();
    let report = run(&config, &files, Some(&mut cache)).unwrap();
    let tokens: Vec<(String, String)> =
        report.findings.iter().map(|f| (f.rule.clone(), f.file.clone())).collect();
    assert_eq!(
        tokens,
        vec![
            ("token-limit".to_string(), "a.md".to_string()),
            ("token-limit".to_string(), "b.md".to_string()),
            ("skill-index-budget".to_string(), "(skill index)".to_string()),
        ]
    );
    let structure: Vec<(String, String, Severity)> = report
        .structure_findings
        .iter()
        .map(|f| (f.rule.clone(), f.file.clone(), f.severity))
        .collect();
    assert_eq!(
        structure,
        vec![
            ("skill-structure".to_string(), "a.md".to_string(), Severity::Pass),
            ("skill-structure".to_string(), "b.md".to_string(), Severity::Pass),
            ("unique-name".to_string(), "a.md".to_string(), Severity::Error),
            ("unique-name".to_string(), "b.md".to_string(), Severity::Error),
        ]
    );
    assert_eq!(report.worst_severity(), Severity::Error);
    assert!(cache.is_dirty());
    assert_eq!(cache.len(), 3);
}

#[test]
fn run_without_files_gives_an_empty_report() {
    let config = config_with(&[("gpt-4", None, 1000, 2000)]);
    let report = run(&config, &Vec::new(), None).unwrap();
    assert!(report.findings.is_empty());
    assert!(report.structure_findings.is_empty());
    assert_eq!(report.worst_severity(), Severity::Pass);
}

#[test]
fn run_fails_as_a_whole_on_the_first_error() {
    let config = config_with(&[("gpt-4", Some("nope"), 1, 2)]);
    let files = vec![file("a.md", "x"), file("b.md", "y")];
    assert!(run(&config, &files, None).is_err());
}

#[test]
fn run_single_skips_the_corpus_rules() {
    let mut config = config_with(&[("gpt-4", None, 1, 2)]);
    config.rules.skill_index_budget = Some(SkillIndexBudgetConfig {
        models: budgets(&[("gpt-4", None, 1, 2)]),
    });
    config.rules.skill_structure = Some(true);
    config.rules.unique_name = Some(true);
    let report = run_single(&config, "a.md", "---\nname: n\n---\nbody", None).unwrap();
    assert_eq!(report.findings.len(), 1);
    assert_eq!(report.findings[0].rule, "token-limit");
    assert_eq!(report.structure_findings.len(), 1);
    assert_eq!(report.structure_findings[0].message, "missing description");
    config.rules.skill_structure = None;
    let report = run_single(&config, "a.md", "x", None).unwrap();
    assert!(report.structure_findings.is_empty());
}

#[test]
fn cached_counts_are_used_without_a_tokenizer() {
    let config = config_with(&[("gpt-4", Some("no_such_encoding"), 5, 10)]);
    let files = vec![file("a.md", "first"), file("b.md", "second")];
    let mut cache = TokenCache::from_persisted(
        1,
        vec![
            (cache_key("first", "no_such_encoding"), 7),
            (cache_key("second", "no_such_encoding"), 12),
        ],
    );
    let report = run(&config, &files, Some(&mut cache)).unwrap();
    assert_eq!(report.findings.len(), 2);
    assert_eq!(report.findings[0].token_count, 7);
    assert_eq!(report.findings[0].severity, Severity::Warning);
    assert_eq!(report.findings[1].token_count, 12);
    assert_eq!(report.findings[1].severity, Severity::Error);
    assert!(!cache.is_dirty());
    assert!(run(&config, &files, None).is_err());
}

#[test]
fn run_with_no_models_needs_no_tokenizer() {
    let mut config = config_with(&[]);
    config.rules.skill_structure = Some(true);
    let files = vec![file("a.md", "x")];
    let report = run(&config, &files, None).unwrap();
    assert!(report.findings.is_empty());
    assert_eq!(report.structure_findings.len(), 1);
}

#[test]
fn failed_run_leaves_the_counts_cached_so_far() {
    let config = config_with(&[("gpt-4", None, 100, 200), ("gpt-4o", Some("nope"), 1, 2)]);
    let mut cache = TokenCache::new();
    match lint_file(&config, "a.md", "Hello, world!", Some(&mut cache)) {
        Err(LintError::UnknownEncoding(name)) => assert_eq!(name, "nope"),
        other => panic!("unexpected result: {:?}", other),
    }
    assert_eq!(cache.len(), 1);
    assert!(cache.is_dirty());
    assert_eq!(cache.get(&cache_key("Hello, world!", "cl100k_base")), Some(4));
}
