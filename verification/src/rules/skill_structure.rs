//! The structure rule: a skill document has front matter with a name and a
//! description, and a body.

use crate::document::{body, field_value, find_field, frontmatter, split_document};
use crate::text::{chars_of, is_blank, is_blank_chars, join, join_strings, string_views};
use crate::types::{Severity, StructureFinding, StructureFindingView};
use vstd::prelude::*;

verus! {

/// The issue of a document without closed front matter.
pub open spec fn invalid_frontmatter() -> Seq<char> {
    "invalid frontmatter"@
}

/// The issue of a front matter without a name.
pub open spec fn missing_name() -> Seq<char> {
    "missing name"@
}

/// The issue of a front matter without a description.
pub open spec fn missing_description() -> Seq<char> {
    "missing description"@
}

/// The issue of a document whose body is empty or blank.
pub open spec fn empty_body() -> Seq<char> {
    "empty body"@
}

/// `issue` if `present`, else nothing.
pub open spec fn issue_if(present: bool, issue: Seq<char>) -> Seq<Seq<char>> {
    if present {
        seq![issue]
    } else {
        Seq::empty()
    }
}

/// The issues of a document, in the order front matter, name, description,
/// body. A document without closed front matter has no body either, and its
/// fields are not looked at.
pub open spec fn issues(content: Seq<char>) -> Seq<Seq<char>> {
    match frontmatter(content) {
        None => seq![invalid_frontmatter(), empty_body()],
        Some(block) => issue_if(field_value(block, "name"@) is None, missing_name()) + issue_if(
            field_value(block, "description"@) is None,
            missing_description(),
        ) + issue_if(is_blank(body(content)), empty_body()),
    }
}

/// The finding for a document with these issues: a pass if there is none,
/// else an error that lists them.
pub open spec fn structure_finding(file: Seq<char>, found: Seq<Seq<char>>) -> StructureFindingView {
    if found.len() == 0 {
        StructureFindingView {
            rule: "skill-structure"@,
            file,
            message: "valid"@,
            severity: Severity::Pass,
        }
    } else {
        StructureFindingView {
            rule: "skill-structure"@,
            file,
            message: join(found, ", "@),
            severity: Severity::Error,
        }
    }
}

/// The issues of a document. Empty if it is valid.
pub fn check_file(content: &str) -> (found: Vec<String>)
    ensures
        string_views(found@) == issues(content@),
{
    let chars = chars_of(content);
    let mut found: Vec<String> = Vec::new();
    match split_document(&chars) {
        None => {
            found.push("invalid frontmatter".to_string());
            found.push("empty body".to_string());
            assert(string_views(found@) =~= issues(content@));
        },
        Some(sections) => {
            let name = chars_of("name");
            let description = chars_of("description");
            let ghost a = issue_if(
                field_value(sections.block@, "name"@) is None,
                missing_name(),
            );
            let ghost b = issue_if(
                field_value(sections.block@, "description"@) is None,
                missing_description(),
            );
            let ghost c = issue_if(is_blank(body(content@)), empty_body());
            if find_field(&sections.block, &name).is_none() {
                found.push("missing name".to_string());
            }
            assert(string_views(found@) =~= a);
            if find_field(&sections.block, &description).is_none() {
                found.push("missing description".to_string());
            }
            assert(string_views(found@) =~= a + b);
            if is_blank_chars(&sections.body) {
                found.push("empty body".to_string());
            }
            assert(string_views(found@) =~= a + b + c);
        },
    }
    found
}

/// The finding of the structure rule for one file.
pub fn lint_file(file: &str, content: &str) -> (finding: StructureFinding)
    ensures
        finding@ == structure_finding(file@, issues(content@)),
{
    let found = check_file(content);
    if found.len() == 0 {
        StructureFinding {
            rule: "skill-structure".to_string(),
            file: file.to_string(),
            message: "valid".to_string(),
            severity: Severity::Pass,
        }
    } else {
        StructureFinding {
            rule: "skill-structure".to_string(),
            file: file.to_string(),
            message: join_strings(&found, ", "),
            severity: Severity::Error,
        }
    }
}

/// A document with empty front matter and nothing after it has exactly the
/// issues of a missing name, a missing description and an empty body, in
/// that order.
pub proof fn lemma_issues_of_empty_frontmatter(content: Seq<char>)
    requires
        frontmatter(content) == Some(Seq::<char>::empty()),
        is_blank(body(content)),
    ensures
        issues(content) == seq![missing_name(), missing_description(), empty_body()],
{
    let block = Seq::<char>::empty();
    assert(crate::text::lines(block) =~= Seq::<Seq<char>>::empty());
    assert(field_value(block, "name"@) is None);
    assert(field_value(block, "description"@) is None);
    assert(issues(content) =~= seq![missing_name(), missing_description(), empty_body()]);
}

} // verus!
