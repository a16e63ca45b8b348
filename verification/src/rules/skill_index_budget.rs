//! The skill index budget: the tokens of all front matter blocks together,
//! held against one budget for the whole corpus.

use crate::cache::{state_before, TokenCache};
use crate::config::{Config, ResolvedBudget};
use crate::document::{file_views, frontmatter, line_feed, split_document, SourceFile, SourceFileView};
use crate::errors::LintError;
use crate::rules::token_limit::{
    check_each, check_steps, checked, fresh, gave, lemma_steps_from_stopped, reached,
    spec_table_targets, table_targets, Progress,
};
use crate::text::{chars_of, extend_chars, join, string_of};
use crate::types::{finding_views, LintFinding};
use vstd::prelude::*;

verus! {

/// The label that stands in a finding where a file's path would: it marks
/// the finding as one on the whole corpus.
pub const AGGREGATE_LABEL: &'static str = "(skill index)";

/// The name of this rule.
pub open spec fn rule_name() -> Seq<char> {
    "skill-index-budget"@
}

/// The label of corpus-level findings.
pub open spec fn aggregate_label() -> Seq<char> {
    "(skill index)"@
}

/// The front matter blocks of the first `n` documents, in order. A document
/// without front matter gives none.
pub open spec fn blocks(files: Seq<SourceFileView>, n: int) -> Seq<Seq<char>>
    decreases n,
{
    if n <= 0 {
        Seq::empty()
    } else {
        match frontmatter(files[n - 1].content) {
            Some(block) => blocks(files, n - 1).push(block),
            None => blocks(files, n - 1),
        }
    }
}

/// All front matter blocks of the corpus, joined by line feeds.
pub open spec fn aggregate(files: Seq<SourceFileView>) -> Seq<char> {
    join(blocks(files, files.len() as int), line_feed())
}

/// `start` after the skill index checks: one check of the aggregate for each
/// model of the rule, in ascending order of the names. Nothing happens if
/// the rule is not configured.
pub open spec fn spec_check_all(start: Progress, config: Config, files: Seq<SourceFileView>) -> Progress {
    match config.rules.skill_index_budget {
        Some(rule) => check_steps(
            start,
            rule_name(),
            aggregate_label(),
            aggregate(files),
            spec_table_targets(rule.models),
        ),
        None => start,
    }
}

/// The front matter block of a document: the lines strictly between the
/// opening and the closing delimiter, joined by line feeds. `None` if the
/// first line is no delimiter or no later line closes the block.
pub fn extract_frontmatter(content: &str) -> (r: Option<String>)
    ensures
        match r {
            Some(block) => frontmatter(content@) == Some(block@),
            None => frontmatter(content@) is None,
        },
{
    let chars = chars_of(content);
    match split_document(&chars) {
        Some(sections) => Some(string_of(&sections.block)),
        None => None,
    }
}

/// Holds the tokens of the aggregated front matter against `budget`.
pub fn check(
    aggregated: &str,
    model: &str,
    budget: &ResolvedBudget,
    cache: Option<&mut TokenCache>,
) -> (r: Result<LintFinding, LintError>)
    ensures
        checked(
            state_before(cache),
            match cache {
                Some(c) => Some(final(c)@),
                None => None,
            },
            rule_name(),
            aggregate_label(),
            model@,
            aggregated@,
            budget@,
            r,
        ),
{
    crate::rules::token_limit::check(
        "skill-index-budget",
        AGGREGATE_LABEL,
        model,
        aggregated,
        budget,
        cache,
    )
}

/// All front matter blocks of the corpus, joined by line feeds.
pub fn aggregate_frontmatter(files: &Vec<SourceFile>) -> (r: String)
    ensures
        r@ == aggregate(file_views(files@)),
{
    let ghost fs = file_views(files@);
    let mut out: Vec<char> = Vec::new();
    let mut any = false;
    let mut i: usize = 0;
    while i < files.len()
        invariant
            i <= files.len(),
            fs == file_views(files@),
            any == (blocks(fs, i as int).len() > 0),
            out@ == join(blocks(fs, i as int), line_feed()),
        decreases files.len() - i,
    {
        let chars = chars_of(files[i].content.as_str());
        assert(fs[i as int].content == chars@);
        match split_document(&chars) {
            Some(sections) => {
                let ghost before = blocks(fs, i as int);
                let ghost after = blocks(fs, i + 1);
                assert(after.drop_last() =~= before);
                if any {
                    out.push('\n');
                    assert(out@ =~= join(before, line_feed()) + line_feed());
                } else {
                    assert(out@ + sections.block@ =~= sections.block@);
                }
                extend_chars(&mut out, &sections.block);
                any = true;
            },
            None => {},
        }
        i = i + 1;
    }
    string_of(&out)
}

/// Runs the skill index checks and appends the findings to `findings`.
pub fn check_all_into(
    config: &Config,
    files: &Vec<SourceFile>,
    findings: &mut Vec<LintFinding>,
    cache: Option<&mut TokenCache>,
) -> (r: Result<(), LintError>)
    ensures
        reached(
            spec_check_all(
                Progress::Done {
                    findings: finding_views(old(findings)@),
                    source: state_before(cache),
                },
                *config,
                file_views(files@),
            ),
            finding_views(final(findings)@),
            match cache {
                Some(c) => Some(final(c)@),
                None => None,
            },
            r,
        ),
{
    let rule = match &config.rules.skill_index_budget {
        Some(rule) => rule,
        None => {
            return Ok(());
        },
    };
    let aggregated = aggregate_frontmatter(files);
    let targets = table_targets(&rule.models);
    check_each(
        "skill-index-budget",
        AGGREGATE_LABEL,
        aggregated.as_str(),
        &targets,
        findings,
        cache,
    )
}

/// The skill index findings of the corpus: one for each model of the rule,
/// none if the rule is not configured.
pub fn check_all(config: &Config, files: &Vec<SourceFile>, cache: Option<&mut TokenCache>) -> (r:
    Result<Vec<LintFinding>, LintError>)
    ensures
        gave(
            spec_check_all(fresh(state_before(cache)), *config, file_views(files@)),
            r,
            match cache {
                Some(c) => Some(final(c)@),
                None => None,
            },
        ),
{
    let mut findings: Vec<LintFinding> = Vec::new();
    assert(finding_views(findings@) =~= Seq::empty());
    match check_all_into(config, files, &mut findings, cache) {
        Ok(_) => Ok(findings),
        Err(e) => Err(e),
    }
}

/// Skill index checks leave a series that has stopped where it is.
pub proof fn lemma_check_all_from_stopped(
    start: Progress,
    config: Config,
    files: Seq<SourceFileView>,
)
    requires
        start !is Done,
    ensures
        spec_check_all(start, config, files) == start,
{
    match config.rules.skill_index_budget {
        Some(rule) => {
            lemma_steps_from_stopped(
                start,
                rule_name(),
                aggregate_label(),
                aggregate(files),
                spec_table_targets(rule.models),
            );
        },
        None => {},
    }
}

} // verus!
