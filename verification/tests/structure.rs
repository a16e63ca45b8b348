use skills_lint_core::rules::skill_structure::{check_file, lint_file};
use skills_lint_core::types::Severity;

#[test]
fn test_valid_file() {
    let content = "---\nname: my-skill\ndescription: A useful skill\n---\n# Heading\nBody content\n";
    let issues = check_file(content);
    assert!(issues.is_empty());

    let finding = lint_file("test.md", content);
    assert_eq!(finding.severity, Severity::Pass);
    assert_eq!(finding.message, "valid");
}

#[test]
fn test_missing_frontmatter() {
    let content = "# Just a heading\nSome content\n";
    let issues = check_file(content);
    assert_eq!(issues, vec!["invalid frontmatter", "empty body"]);

    let finding = lint_file("test.md", content);
    assert_eq!(finding.severity, Severity::Error);
    assert!(finding.message.contains("invalid frontmatter"));
}

#[test]
fn test_missing_name() {
    let content = "---\ndescription: A skill\n---\n# Body\n";
    let issues = check_file(content);
    assert_eq!(issues, vec!["missing name"]);
}

#[test]
fn test_missing_description() {
    let content = "---\nname: my-skill\n---\n# Body\n";
    let issues = check_file(content);
    assert_eq!(issues, vec!["missing description"]);
}

#[test]
fn test_empty_body() {
    let content = "---\nname: my-skill\ndescription: A skill\n---\n";
    let issues = check_file(content);
    assert_eq!(issues, vec!["empty body"]);
}

#[test]
fn test_empty_body_whitespace_only() {
    let content = "---\nname: my-skill\ndescription: A skill\n---\n   \n  \n";
    let issues = check_file(content);
    assert_eq!(issues, vec!["empty body"]);
}

#[test]
fn test_multiple_issues() {
    let content = "---\n---\n";
    let issues = check_file(content);
    assert!(issues.contains(&"missing name".to_string()));
    assert!(issues.contains(&"missing description".to_string()));
    assert!(issues.contains(&"empty body".to_string()));

    let finding = lint_file("test.md", content);
    assert_eq!(finding.severity, Severity::Error);
    assert_eq!(finding.message, "missing name, missing description, empty body");
}

#[test]
fn test_empty_name_value() {
    let content = "---\nname:\ndescription: A skill\n---\n# Body\n";
    let issues = check_file(content);
    assert_eq!(issues, vec!["missing name"]);
}

#[test]
fn test_empty_description_value() {
    let content = "---\nname: my-skill\ndescription:   \n---\n# Body\n";
    let issues = check_file(content);
    assert_eq!(issues, vec!["missing description"]);
}

#[test]
fn empty_frontmatter_gives_three_issues_in_order() {
    assert_eq!(
        check_file("---\n---\n"),
        vec!["missing name", "missing description", "empty body"]
    );
}

#[test]
fn unclosed_frontmatter_counts_as_invalid_and_has_no_body() {
    let content = "---\nname: my-skill\ndescription: A skill\n# Body\n";
    assert_eq!(check_file(content), vec!["invalid frontmatter", "empty body"]);
    let finding = lint_file("a.md", content);
    assert_eq!(finding.rule, "skill-structure");
    assert_eq!(finding.file, "a.md");
    assert_eq!(finding.message, "invalid frontmatter, empty body");
    assert_eq!(finding.severity, Severity::Error);
}

#[test]
fn empty_document_is_invalid() {
    assert_eq!(check_file(""), vec!["invalid frontmatter", "empty body"]);
}

#[test]
fn single_issue_message_has_no_comma() {
    let finding = lint_file("a.md", "---\nname: x\ndescription: y\n---\n");
    assert_eq!(finding.message, "empty body");
    assert_eq!(finding.severity, Severity::Error);
}

#[test]
fn all_four_labels_keep_their_order() {
    assert_eq!(
        lint_file("a.md", "---\nother: x\n---\n \n").message,
        "missing name, missing description, empty body"
    );
    assert_eq!(
        lint_file("a.md", "---\ndescription: d\n---\n").message,
        "missing name, empty body"
    );
}

#[test]
fn body_after_second_delimiter_counts() {
    assert!(check_file("---\nname: x\ndescription: y\n---\n---\n").is_empty());
    assert!(check_file("\u{feff}---\nname: x\ndescription: y\n---\nbody").is_empty());
}
