use skills_lint_core::rules::skill_index_budget::extract_frontmatter;
use skills_lint_core::rules::unique_fields::extract_field;

#[test]
fn test_extract_frontmatter_basic() {
    let content = "---\nname: my-skill\ndescription: A skill\n---\n# Body\n";
    let fm = extract_frontmatter(content).unwrap();
    assert_eq!(fm, "name: my-skill\ndescription: A skill");
}

#[test]
fn test_extract_frontmatter_no_frontmatter() {
    let content = "# Just a heading\nSome content\n";
    assert!(extract_frontmatter(content).is_none());
}

#[test]
fn test_extract_frontmatter_unclosed() {
    let content = "---\nname: my-skill\nno closing delimiter\n";
    assert!(extract_frontmatter(content).is_none());
}

#[test]
fn test_extract_frontmatter_empty() {
    let content = "---\n---\n# Body\n";
    let fm = extract_frontmatter(content).unwrap();
    assert_eq!(fm, "");
}

#[test]
fn test_extract_frontmatter_bom() {
    let content = "\u{feff}---\nname: bom-skill\n---\n";
    let fm = extract_frontmatter(content).unwrap();
    assert_eq!(fm, "name: bom-skill");
}

#[test]
fn test_extract_field_name() {
    let fm = "name: my-skill\ndescription: A skill";
    assert_eq!(extract_field(fm, "name").as_deref(), Some("my-skill"));
    assert_eq!(extract_field(fm, "description").as_deref(), Some("A skill"));
}

#[test]
fn test_extract_field_missing() {
    let fm = "name: my-skill";
    assert_eq!(extract_field(fm, "description"), None);
}

#[test]
fn test_extract_field_empty_value() {
    let fm = "name:";
    assert_eq!(extract_field(fm, "name"), None);
}

#[test]
fn test_extract_field_whitespace_value() {
    let fm = "name:   ";
    assert_eq!(extract_field(fm, "name"), None);
}

#[test]
fn frontmatter_of_the_plain_cases() {
    assert_eq!(extract_frontmatter("---\nname: x\n---\nbody").as_deref(), Some("name: x"));
    assert_eq!(extract_frontmatter("---\n---\n").as_deref(), Some(""));
    assert_eq!(extract_frontmatter("name: x\n---\n"), None);
    assert_eq!(extract_frontmatter("---\nname: x\n"), None);
    assert_eq!(extract_frontmatter("\u{feff}---\na\n---\n").as_deref(), Some("a"));
    assert_eq!(extract_frontmatter(""), None);
    assert_eq!(extract_frontmatter("---"), None);
    assert_eq!(extract_frontmatter("\u{feff}"), None);
}

#[test]
fn frontmatter_stops_at_the_first_closing_line() {
    assert_eq!(extract_frontmatter("---\na\n---\nb\n---\nc\n").as_deref(), Some("a"));
}

#[test]
fn delimiter_lines_may_carry_whitespace() {
    assert_eq!(extract_frontmatter("---  \na\n---\t\n").as_deref(), Some("a"));
    assert_eq!(extract_frontmatter("---\na\n  ---  \n").as_deref(), Some("a"));
    assert_eq!(extract_frontmatter("  ---\na\n---\n"), None);
    assert_eq!(extract_frontmatter("----\na\n---\n"), None);
    assert_eq!(extract_frontmatter("---\na\n--- x\n"), None);
}

#[test]
fn only_one_byte_order_mark_is_set_aside() {
    assert_eq!(extract_frontmatter("\u{feff}\u{feff}---\na\n---\n"), None);
    assert_eq!(extract_frontmatter("---\n\u{feff}a\n---\n").as_deref(), Some("\u{feff}a"));
}

#[test]
fn carriage_returns_before_line_feeds_are_dropped() {
    assert_eq!(extract_frontmatter("---\r\nname: x\r\nb\r\n---\r\n").as_deref(), Some("name: x\nb"));
    assert_eq!(extract_frontmatter("---\na\rb\n---").as_deref(), Some("a\rb"));
}

#[test]
fn block_keeps_blank_lines_and_inner_whitespace() {
    assert_eq!(extract_frontmatter("---\n\n a \n\n---\n").as_deref(), Some("\n a \n"));
}

#[test]
fn field_is_the_first_line_with_a_value() {
    assert_eq!(extract_field("name:\nname: second\nname: third", "name").as_deref(), Some("second"));
    assert_eq!(extract_field("name:  padded \t", "name").as_deref(), Some("padded"));
    assert_eq!(extract_field(" name: x", "name"), None);
    assert_eq!(extract_field("Name: x", "name"), None);
    assert_eq!(extract_field("name : x", "name"), None);
    assert_eq!(extract_field("names: x", "name"), None);
    assert_eq!(extract_field("name:x:y", "name").as_deref(), Some("x:y"));
    assert_eq!(extract_field("", "name"), None);
    assert_eq!(extract_field("name:\u{a0}\u{3000}", "name"), None);
}
