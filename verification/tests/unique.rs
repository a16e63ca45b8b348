use skills_lint_core::config::{Config, RulesConfig, TokenLimitConfig};
use skills_lint_core::document::SourceFile;
use skills_lint_core::rules::unique_fields::check_all;
use skills_lint_core::table::Table;
use skills_lint_core::types::Severity;

fn config(unique_name: Option<bool>, unique_description: Option<bool>) -> Config {
    Config {
        patterns: Vec::new(),
        rules: RulesConfig {
            token_limit: TokenLimitConfig { models: Table::new() },
            skill_index_budget: None,
            frontmatter_limit: None,
            skill_structure: None,
            unique_name,
            unique_description,
        },
        overrides: Vec::new(),
        cache: true,
    }
}

fn file(path: &str, content: &str) -> SourceFile {
    SourceFile { path: path.to_string(), content: content.to_string() }
}

#[test]
fn duplicates_name_each_other_and_distinct_values_pass() {
    let files = vec![
        file("a.md", "---\nname: same\n---\n"),
        file("b.md", "---\nname: same\n---\n"),
        file("c.md", "---\nname: other\n---\n"),
        file("d.md", "---\nname:\n---\n"),
        file("e.md", "---\ndescription: x\n---\n"),
        file("f.md", "no front matter"),
    ];
    let findings = check_all(&config(Some(true), None), &files);
    assert_eq!(findings.len(), 3);
    assert_eq!(findings[0].rule, "unique-name");
    assert_eq!(findings[0].file, "a.md");
    assert_eq!(findings[0].severity, Severity::Error);
    assert_eq!(findings[0].message, "duplicate name \"same\" (also in b.md)");
    assert_eq!(findings[1].file, "b.md");
    assert_eq!(findings[1].severity, Severity::Error);
    assert_eq!(findings[1].message, "duplicate name \"same\" (also in a.md)");
    assert_eq!(findings[2].file, "c.md");
    assert_eq!(findings[2].severity, Severity::Pass);
    assert_eq!(findings[2].message, "unique");
}

#[test]
fn rules_are_off_unless_switched_on() {
    let files = vec![file("a.md", "---\nname: same\n---\n"), file("b.md", "---\nname: same\n---\n")];
    assert!(check_all(&config(None, None), &files).is_empty());
    assert!(check_all(&config(Some(false), Some(false)), &files).is_empty());
    assert!(check_all(&config(None, Some(true)), &files).is_empty());
    assert_eq!(check_all(&config(Some(true), Some(false)), &files).len(), 2);
}

#[test]
fn three_duplicates_list_the_two_others_in_file_order() {
    let files = vec![
        file("a.md", "---\nname: n\n---\n"),
        file("b.md", "---\nname: n\n---\n"),
        file("c.md", "---\nname:   n  \n---\n"),
    ];
    let findings = check_all(&config(Some(true), None), &files);
    assert_eq!(findings[0].message, "duplicate name \"n\" (also in b.md, c.md)");
    assert_eq!(findings[1].message, "duplicate name \"n\" (also in a.md, c.md)");
    assert_eq!(findings[2].message, "duplicate name \"n\" (also in a.md, b.md)");
}

#[test]
fn name_and_description_findings_alternate_per_file() {
    let files = vec![
        file("a.md", "---\nname: one\ndescription: d\n---\n"),
        file("b.md", "---\nname: two\ndescription: d\n---\n"),
    ];
    let findings = check_all(&config(Some(true), Some(true)), &files);
    let seen: Vec<(String, String, Severity)> =
        findings.iter().map(|f| (f.rule.clone(), f.file.clone(), f.severity)).collect();
    assert_eq!(
        seen,
        vec![
            ("unique-name".to_string(), "a.md".to_string(), Severity::Pass),
            ("unique-description".to_string(), "a.md".to_string(), Severity::Error),
            ("unique-name".to_string(), "b.md".to_string(), Severity::Pass),
            ("unique-description".to_string(), "b.md".to_string(), Severity::Error),
        ]
    );
    assert_eq!(findings[1].message, "duplicate description \"d\" (also in b.md)");
}

#[test]
fn long_descriptions_are_shortened_in_the_message_only() {
    let long = "x".repeat(41);
    let exact = "y".repeat(40);
    let files = vec![
        file("a.md", &format!("---\ndescription: {}\n---\n", long)),
        file("b.md", &format!("---\ndescription: {}\n---\n", long)),
        file("c.md", &format!("---\ndescription: {}z\n---\n", "x".repeat(40))),
        file("d.md", &format!("---\ndescription: {}\n---\n", exact)),
        file("e.md", &format!("---\ndescription: {}\n---\n", exact)),
    ];
    let findings = check_all(&config(None, Some(true)), &files);
    assert_eq!(findings.len(), 5);
    assert_eq!(
        findings[0].message,
        format!("duplicate description \"{}...\" (also in b.md)", "x".repeat(40))
    );
    assert_eq!(findings[2].severity, Severity::Pass);
    assert_eq!(findings[3].message, format!("duplicate description \"{}\" (also in e.md)", exact));
}

#[test]
fn long_names_are_not_shortened() {
    let long = "n".repeat(50);
    let files = vec![
        file("a.md", &format!("---\nname: {}\n---\n", long)),
        file("b.md", &format!("---\nname: {}\n---\n", long)),
    ];
    let findings = check_all(&config(Some(true), None), &files);
    assert_eq!(findings[0].message, format!("duplicate name \"{}\" (also in b.md)", long));
}

#[test]
fn shortening_counts_characters() {
    let long = "é".repeat(41);
    let files = vec![
        file("a.md", &format!("---\ndescription: {}\n---\n", long)),
        file("b.md", &format!("---\ndescription: {}\n---\n", long)),
    ];
    let findings = check_all(&config(None, Some(true)), &files);
    assert_eq!(
        findings[0].message,
        format!("duplicate description \"{}...\" (also in b.md)", "é".repeat(40))
    );
}

#[test]
fn same_path_twice_is_a_duplicate_with_no_other_file() {
    let files = vec![file("a.md", "---\nname: n\n---\n"), file("a.md", "---\nname: n\n---\n")];
    let findings = check_all(&config(Some(true), None), &files);
    assert_eq!(findings.len(), 2);
    assert_eq!(findings[0].severity, Severity::Error);
    assert_eq!(findings[0].message, "duplicate name \"n\" (also in )");
}

#[test]
fn no_files_no_findings() {
    assert!(check_all(&config(Some(true), Some(true)), &Vec::new()).is_empty());
}
