use skills_lint_core::discovery::discover_files;
use skills_lint_core::errors::LintError;
use skills_lint_core::init::{build_config, default_budgets, update_gitignore};
use skills_lint_core::report::{
    exit_code, files_of, format_number, is_notable, section_files, shows_aggregate, status_text,
    structure_row, summarize, token_rows, worst_row, Summary,
};
use skills_lint_core::types::{LintFinding, LintReport, StructureFinding};
use skills_lint_core::text::chars_of;
use skills_lint_core::types::Severity;

#[test]
fn test_format_number() {
    assert_eq!(format_number(0), "0");
    assert_eq!(format_number(999), "999");
    assert_eq!(format_number(1000), "1,000");
    assert_eq!(format_number(12345), "12,345");
    assert_eq!(format_number(1234567), "1,234,567");
}

#[test]
fn test_no_matches_returns_empty() {
    let result = discover_files(Vec::new());
    assert!(result.is_empty());
}

#[test]
fn format_number_pads_inner_groups() {
    assert_eq!(format_number(9), "9");
    assert_eq!(format_number(10), "10");
    assert_eq!(format_number(1001), "1,001");
    assert_eq!(format_number(1_000_000), "1,000,000");
    assert_eq!(format_number(100_020_003), "100,020,003");
    assert_eq!(format_number(4_294_967_295), "4,294,967,295");
}

#[test]
fn status_and_exit_code_follow_severity() {
    assert_eq!(status_text(Severity::Pass), "✓ PASS");
    assert_eq!(status_text(Severity::Warning), "⚠ WARN");
    assert_eq!(status_text(Severity::Error), "✗ ERROR");
    assert!(!is_notable(Severity::Pass));
    assert!(is_notable(Severity::Warning));
    assert!(is_notable(Severity::Error));
    assert_eq!(exit_code(Severity::Pass), 0);
    assert_eq!(exit_code(Severity::Error), 1);
    assert_eq!(exit_code(Severity::Warning), 2);
}

#[test]
fn discovered_files_are_sorted_and_unique() {
    let matched = vec![
        "b.md".to_string(),
        "a/z.md".to_string(),
        "b.md".to_string(),
        "a.md".to_string(),
        "B.md".to_string(),
        "a/z.md".to_string(),
    ];
    assert_eq!(discover_files(matched), vec!["B.md", "a.md", "a/z.md", "b.md"]);
}

#[test]
fn discovered_files_are_ordered_like_strings() {
    let mut expected = vec![
        "é.md".to_string(),
        "z.md".to_string(),
        "".to_string(),
        "a".to_string(),
        "ab".to_string(),
        "\u{10000}.md".to_string(),
        "\u{ffff}.md".to_string(),
    ];
    let found = discover_files(expected.clone());
    expected.sort();
    assert_eq!(found, expected);
}

#[test]
fn default_budgets_by_model() {
    let b = default_budgets("gpt-5");
    assert_eq!(b.token_limit, (16000, 32000));
    assert_eq!(b.frontmatter_limit, (2000, 4000));
    assert_eq!(b.skill_index_budget, (4000, 8000));
    for model in ["gpt-4o", "gpt-4o-mini", "gpt-4-turbo", "anything else"] {
        let b = default_budgets(model);
        assert_eq!(b.token_limit, (8000, 16000));
        assert_eq!(b.frontmatter_limit, (1000, 2000));
        assert_eq!(b.skill_index_budget, (2000, 4000));
    }
    let b = default_budgets("gpt-4");
    assert_eq!(b.token_limit, (2000, 4000));
    assert_eq!(b.frontmatter_limit, (500, 1000));
    assert_eq!(b.skill_index_budget, (1000, 2000));
    let b = default_budgets("gpt-3.5-turbo");
    assert_eq!(b.token_limit, (4000, 8000));
    assert_eq!(b.frontmatter_limit, (500, 1000));
    assert_eq!(b.skill_index_budget, (1000, 2000));
}

#[test]
fn built_config_holds_the_chosen_models_and_rules() {
    let models = vec!["gpt-5".to_string(), "gpt-4".to_string()];
    let rules = vec!["skill-index-budget".to_string(), "unique-name".to_string()];
    let config = build_config("./**/SKILL.md", &models, &rules);
    assert_eq!(config.patterns, vec!["./**/SKILL.md"]);
    assert!(config.overrides.is_empty());
    assert!(config.cache);
    assert_eq!(config.rules.token_limit.models.len(), 2);
    let gpt5 = config.rules.token_limit.models.get("gpt-5").unwrap();
    assert_eq!((gpt5.warning, gpt5.error), (16000, 32000));
    assert!(gpt5.encoding.is_none());
    let gpt4 = config.rules.token_limit.models.get("gpt-4").unwrap();
    assert_eq!((gpt4.warning, gpt4.error), (2000, 4000));
    assert!(config.rules.frontmatter_limit.is_none());
    let index = config.rules.skill_index_budget.as_ref().unwrap();
    assert_eq!(index.models.get("gpt-5").unwrap().warning, 4000);
    assert_eq!(index.models.get("gpt-4").unwrap().error, 2000);
    assert_eq!(config.rules.skill_structure, None);
    assert_eq!(config.rules.unique_name, Some(true));
    assert_eq!(config.rules.unique_description, None);
    assert!(config.validate().is_ok());
}

#[test]
fn built_config_with_every_rule() {
    let models = vec!["gpt-4o".to_string()];
    let rules: Vec<String> = [
        "frontmatter-limit",
        "skill-index-budget",
        "skill-structure",
        "unique-name",
        "unique-description",
        "something-else",
    ]
    .iter()
    .map(|r| r.to_string())
    .collect();
    let config = build_config("*.md", &models, &rules);
    assert_eq!(
        config.rules.frontmatter_limit.as_ref().unwrap().models.get("gpt-4o").unwrap().error,
        2000
    );
    assert!(config.rules.skill_index_budget.is_some());
    assert_eq!(config.rules.skill_structure, Some(true));
    assert_eq!(config.rules.unique_name, Some(true));
    assert_eq!(config.rules.unique_description, Some(true));
}

#[test]
fn gitignore_gets_the_cache_entry_once() {
    assert_eq!(update_gitignore("").as_deref(), Some(".skills-lint-cache/\n"));
    assert_eq!(
        update_gitignore("target\n").as_deref(),
        Some("target\n.skills-lint-cache/\n")
    );
    assert_eq!(
        update_gitignore("target").as_deref(),
        Some("target\n.skills-lint-cache/\n")
    );
    assert_eq!(update_gitignore("target\n.skills-lint-cache/\n"), None);
    assert_eq!(update_gitignore("  .skills-lint-cache/ \r\nx"), None);
    assert_eq!(
        update_gitignore(".skills-lint-cache\n").as_deref(),
        Some(".skills-lint-cache\n.skills-lint-cache/\n")
    );
}

#[test]
fn error_messages() {
    assert_eq!(
        LintError::ConfigRead("c.json".to_string(), "gone".to_string()).message(),
        "failed to read config file 'c.json': gone"
    );
    assert_eq!(
        LintError::ConfigParse("c.json".to_string(), "bad".to_string()).message(),
        "failed to parse config file 'c.json': bad"
    );
    assert_eq!(
        LintError::UnsupportedModel("m".to_string(), vec!["a".to_string(), "b".to_string()])
            .message(),
        "unsupported model 'm' (supported: a, b)"
    );
    assert_eq!(LintError::UnknownEncoding("e".to_string()).message(), "unknown encoding: e");
    assert_eq!(LintError::Tokenizer("t".to_string()).message(), "tokenizer error: t");
    assert_eq!(
        LintError::GlobPattern("[".to_string(), "bad".to_string()).message(),
        "invalid glob pattern '[': bad"
    );
    assert_eq!(LintError::GlobIteration("x".to_string()).message(), "glob iteration error: x");
    assert_eq!(
        LintError::FileRead("a.md".to_string(), "gone".to_string()).message(),
        "failed to read file 'a.md': gone"
    );
}

#[test]
fn strings_and_characters_convert_both_ways() {
    let text = "a\u{e9}\u{10000}\n";
    let chars = chars_of(text);
    assert_eq!(chars, vec!['a', '\u{e9}', '\u{10000}', '\n']);
    assert_eq!(chars_of(""), Vec::<char>::new());
    assert_eq!(format_number(1234), chars_of("1,234").into_iter().collect::<String>());
}

fn token(file: &str, severity: Severity) -> LintFinding {
    LintFinding {
        rule: "token-limit".to_string(),
        file: file.to_string(),
        model: "gpt-4".to_string(),
        token_count: 1,
        warning_threshold: 2,
        error_threshold: 3,
        severity,
    }
}

fn structure(file: &str, severity: Severity) -> StructureFinding {
    StructureFinding {
        rule: "skill-structure".to_string(),
        file: file.to_string(),
        message: "m".to_string(),
        severity,
    }
}

fn sample() -> LintReport {
    LintReport::new(
        vec![
            token("c.md", Severity::Pass),
            token("a.md", Severity::Warning),
            token("a.md", Severity::Pass),
            token("(skill index)", Severity::Pass),
            token("b.md", Severity::Error),
            token("(skill index)", Severity::Pass),
        ],
        vec![
            structure("b.md", Severity::Pass),
            structure("a.md", Severity::Pass),
            structure("b.md", Severity::Error),
            structure("d.md", Severity::Error),
        ],
    )
}

#[test]
fn files_come_in_order_of_first_finding() {
    assert_eq!(files_of(&sample()), vec!["b.md", "a.md", "d.md", "c.md"]);
    assert!(files_of(&LintReport::new(Vec::new(), Vec::new())).is_empty());
}

#[test]
fn sections_leave_out_files_that_only_pass() {
    let report = sample();
    assert_eq!(section_files(&report, true), vec!["b.md", "a.md", "d.md", "c.md"]);
    assert_eq!(section_files(&report, false), vec!["b.md", "a.md", "d.md"]);
}

#[test]
fn structure_row_is_the_first_finding_of_the_file() {
    let report = sample();
    assert_eq!(structure_row(&report, "b.md", true), Some(0));
    assert_eq!(structure_row(&report, "b.md", false), None);
    assert_eq!(structure_row(&report, "d.md", false), Some(3));
    assert_eq!(structure_row(&report, "c.md", true), None);
}

#[test]
fn token_rows_are_those_of_the_file_that_are_shown() {
    let report = sample();
    assert_eq!(token_rows(&report, "a.md", true), vec![1, 2]);
    assert_eq!(token_rows(&report, "a.md", false), vec![1]);
    assert_eq!(token_rows(&report, "c.md", false), Vec::<usize>::new());
    assert_eq!(token_rows(&report, "(skill index)", true), vec![3, 5]);
    assert_eq!(token_rows(&report, "(skill index)", false), Vec::<usize>::new());
}

#[test]
fn corpus_section_needs_a_finding_that_is_shown() {
    let report = sample();
    assert!(shows_aggregate(&report, true));
    assert!(!shows_aggregate(&report, false));
    let report = LintReport::new(vec![token("(skill index)", Severity::Warning)], Vec::new());
    assert!(shows_aggregate(&report, false));
    let report = LintReport::new(vec![token("a.md", Severity::Warning)], Vec::new());
    assert!(!shows_aggregate(&report, true));
}

#[test]
fn worst_row_is_the_worst_of_the_rows() {
    let report = sample();
    assert_eq!(worst_row(&report, &vec![0, 2]), Severity::Pass);
    assert_eq!(worst_row(&report, &vec![0, 1, 2]), Severity::Warning);
    assert_eq!(worst_row(&report, &vec![1, 4, 0]), Severity::Error);
    assert_eq!(worst_row(&report, &Vec::new()), Severity::Pass);
    assert_eq!(worst_row(&report, &vec![99]), Severity::Pass);
}

#[test]
fn summary_counts_findings_and_files() {
    assert_eq!(
        summarize(&sample()),
        Summary { passed: 6, warnings: 1, errors: 3, files: 4 }
    );
    assert_eq!(
        summarize(&LintReport::new(Vec::new(), Vec::new())),
        Summary { passed: 0, warnings: 0, errors: 0, files: 0 }
    );
}
