//! The front matter limit: the tokens of a document's front matter block,
//! held against a budget of its own.

use crate::cache::{state_before, TokenCache};
use crate::config::{Config, ResolvedBudget};
use crate::document::{frontmatter, split_document};
use crate::errors::LintError;
use crate::rules::token_limit::{
    check_each, check_steps, checked, fresh, gave, lemma_steps_from_stopped, reached,
    spec_table_targets, table_targets, Progress,
};
use crate::text::{chars_of, string_of};
use crate::types::{finding_views, LintFinding};
use vstd::prelude::*;

verus! {

/// The name of this rule.
pub open spec fn rule_name() -> Seq<char> {
    "frontmatter-limit"@
}

/// `start` after the front matter checks of one document: one check of the
/// block for each model of the rule, in ascending order of the names.
/// Nothing happens if the rule is not configured or the document has no
/// front matter.
pub open spec fn spec_check_file(
    start: Progress,
    config: Config,
    file: Seq<char>,
    content: Seq<char>,
) -> Progress {
    match config.rules.frontmatter_limit {
        Some(rule) => match frontmatter(content) {
            Some(block) => check_steps(
                start,
                rule_name(),
                file,
                block,
                spec_table_targets(rule.models),
            ),
            None => start,
        },
        None => start,
    }
}

/// Holds the tokens of a front matter block against `budget`.
pub fn check(
    file: &str,
    model: &str,
    frontmatter: &str,
    budget: &ResolvedBudget,
    cache: Option<&mut TokenCache>,
) -> (r: Result<LintFinding, LintError>)
    ensures
        checked(
            state_before(cache),
            match cache {
                Some(c) => Some(final(c)@),
                None => None,
            },
            rule_name(),
            file@,
            model@,
            frontmatter@,
            budget@,
            r,
        ),
{
    crate::rules::token_limit::check("frontmatter-limit", file, model, frontmatter, budget, cache)
}

/// Runs the front matter checks of one document and appends the findings to
/// `findings`.
pub fn check_file_into(
    config: &Config,
    file: &str,
    content: &str,
    findings: &mut Vec<LintFinding>,
    cache: Option<&mut TokenCache>,
) -> (r: Result<(), LintError>)
    ensures
        reached(
            spec_check_file(
                Progress::Done {
                    findings: finding_views(old(findings)@),
                    source: state_before(cache),
                },
                *config,
                file@,
                content@,
            ),
            finding_views(final(findings)@),
            match cache {
                Some(c) => Some(final(c)@),
                None => None,
            },
            r,
        ),
{
    let rule = match &config.rules.frontmatter_limit {
        Some(rule) => rule,
        None => {
            return Ok(());
        },
    };
    let chars = chars_of(content);
    let block = match split_document(&chars) {
        Some(sections) => string_of(&sections.block),
        None => {
            return Ok(());
        },
    };
    let targets = table_targets(&rule.models);
    check_each("frontmatter-limit", file, block.as_str(), &targets, findings, cache)
}

/// The front matter findings of one document: one for each model of the
/// rule, none if the rule is not configured or the document has no front
/// matter.
pub fn check_file(
    config: &Config,
    file: &str,
    content: &str,
    cache: Option<&mut TokenCache>,
) -> (r: Result<Vec<LintFinding>, LintError>)
    ensures
        gave(
            spec_check_file(fresh(state_before(cache)), *config, file@, content@),
            r,
            match cache {
                Some(c) => Some(final(c)@),
                None => None,
            },
        ),
{
    let mut findings: Vec<LintFinding> = Vec::new();
    assert(finding_views(findings@) =~= Seq::empty());
    match check_file_into(config, file, content, &mut findings, cache) {
        Ok(_) => Ok(findings),
        Err(e) => Err(e),
    }
}

/// Front matter checks leave a series that has stopped where it is.
pub proof fn lemma_check_file_from_stopped(
    start: Progress,
    config: Config,
    file: Seq<char>,
    content: Seq<char>,
)
    requires
        start !is Done,
    ensures
        spec_check_file(start, config, file, content) == start,
{
    match config.rules.frontmatter_limit {
        Some(rule) => match frontmatter(content) {
            Some(block) => {
                lemma_steps_from_stopped(
                    start,
                    rule_name(),
                    file,
                    block,
                    spec_table_targets(rule.models),
                );
            },
            None => {},
        },
        None => {},
    }
}

} // verus!
