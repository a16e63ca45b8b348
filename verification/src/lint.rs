//! A run: every rule on every file, in two passes, rolled up into a report.

use crate::cache::{state_before, CacheState, TokenCache};
use crate::config::Config;
use crate::document::{file_views, SourceFile, SourceFileView};
use crate::errors::LintError;
use crate::rules::frontmatter_limit;
use crate::rules::skill_index_budget;
use crate::rules::skill_structure;
use crate::rules::token_limit::{
    check_each, check_steps, file_targets, fresh, gave, lemma_steps_from_stopped, reached,
    spec_file_targets, Progress,
};
use crate::rules::unique_fields;
use crate::types::{
    finding_views, structure_views, LintFinding, LintReport, StructureFinding,
    StructureFindingView,
};
use vstd::prelude::*;

verus! {

/// The name of the rule on whole documents.
pub open spec fn token_limit_name() -> Seq<char> {
    "token-limit"@
}

/// `start` after the token checks of one document: the whole document for
/// each model of the token limit, then its front matter for each model of
/// the front matter limit.
pub open spec fn spec_lint_file(
    start: Progress,
    config: Config,
    file: Seq<char>,
    content: Seq<char>,
) -> Progress {
    frontmatter_limit::spec_check_file(
        check_steps(start, token_limit_name(), file, content, spec_file_targets(config, file)),
        config,
        file,
        content,
    )
}

/// `start` after the token checks of the first `n` documents, in order.
pub open spec fn spec_lint_files(
    start: Progress,
    config: Config,
    files: Seq<SourceFileView>,
    n: int,
) -> Progress
    decreases n,
{
    if n <= 0 {
        start
    } else {
        spec_lint_file(
            spec_lint_files(start, config, files, n - 1),
            config,
            files[n - 1].path,
            files[n - 1].content,
        )
    }
}

/// `start` after all token checks of a run: those of each document in
/// order, then those of the skill index, which need every document.
pub open spec fn spec_token_pass(start: Progress, config: Config, files: Seq<SourceFileView>) -> Progress {
    skill_index_budget::spec_check_all(
        spec_lint_files(start, config, files, files.len() as int),
        config,
        files,
    )
}

/// The structure finding of one document, `None` if the rule is off.
pub open spec fn spec_check_structure(config: Config, file: Seq<char>, content: Seq<char>) -> Option<
    StructureFindingView,
> {
    if config.rules.skill_structure == Some(true) {
        Some(skill_structure::structure_finding(file, skill_structure::issues(content)))
    } else {
        None
    }
}

/// The structure findings of the first `n` documents, in order.
pub open spec fn structure_pass(config: Config, files: Seq<SourceFileView>, n: int) -> Seq<
    StructureFindingView,
>
    decreases n,
{
    if n <= 0 {
        Seq::empty()
    } else {
        match spec_check_structure(config, files[n - 1].path, files[n - 1].content) {
            Some(f) => structure_pass(config, files, n - 1).push(f),
            None => structure_pass(config, files, n - 1),
        }
    }
}

/// All structure findings of a run: those of the structure rule for each
/// document in order, then those of the uniqueness rules.
pub open spec fn spec_structure_findings(config: Config, files: Seq<SourceFileView>) -> Seq<
    StructureFindingView,
> {
    structure_pass(config, files, files.len() as int) + unique_fields::spec_check_all(
        config,
        files,
    )
}

/// Whether a run whose token checks get to `goal` and whose structure
/// findings are `structure` ends with `r` and the cache as `after`. The run
/// succeeds exactly if the token checks come through, and the report then
/// holds their findings and the structure findings. It fails with the error
/// of the check at which the token checks stop. The cache is as the token
/// checks left it.
pub open spec fn ran(
    goal: Progress,
    structure: Seq<StructureFindingView>,
    r: Result<LintReport, LintError>,
    after: Option<CacheState>,
) -> bool {
    goal.ends_with(r) && goal.source() == after && (r matches Ok(report) ==> goal.findings()
        == finding_views(report.findings@) && structure_views(report.structure_findings@)
        == structure)
}

/// Token checks of a document leave a series that has stopped where it is.
pub proof fn lemma_lint_file_from_stopped(
    start: Progress,
    config: Config,
    file: Seq<char>,
    content: Seq<char>,
)
    requires
        start !is Done,
    ensures
        spec_lint_file(start, config, file, content) == start,
{
    lemma_steps_from_stopped(
        start,
        token_limit_name(),
        file,
        content,
        spec_file_targets(config, file),
    );
    frontmatter_limit::lemma_check_file_from_stopped(start, config, file, content);
}

/// Once the token checks have stopped after `k` documents, the rest of the
/// pass changes nothing.
pub proof fn lemma_token_pass_stops(
    start: Progress,
    config: Config,
    files: Seq<SourceFileView>,
    k: int,
    n: int,
)
    requires
        0 <= k <= n,
        spec_lint_files(start, config, files, k) !is Done,
    ensures
        spec_lint_files(start, config, files, n) == spec_lint_files(start, config, files, k),
        n == files.len() ==> spec_token_pass(start, config, files) == spec_lint_files(
            start,
            config,
            files,
            k,
        ),
    decreases n - k,
{
    if k < n {
        lemma_token_pass_stops(start, config, files, k, n - 1);
        lemma_lint_file_from_stopped(
            spec_lint_files(start, config, files, n - 1),
            config,
            files[n - 1].path,
            files[n - 1].content,
        );
    }
    if n == files.len() {
        skill_index_budget::lemma_check_all_from_stopped(
            spec_lint_files(start, config, files, n),
            config,
            files,
        );
    }
}

/// Runs the token checks of one document and appends the findings to
/// `findings`.
pub fn lint_file_into(
    config: &Config,
    file: &str,
    content: &str,
    findings: &mut Vec<LintFinding>,
    cache: Option<&mut TokenCache>,
) -> (r: Result<(), LintError>)
    ensures
        reached(
            spec_lint_file(
                Progress::Done {
                    findings: finding_views(old(findings)@),
                    source: state_before(cache),
                },
                *config,
                file@,
                content@,
            ),
            finding_views(final(findings)@),
            match cache {
                Some(c) => Some(final(c)@),
                None => None,
            },
            r,
        ),
{
    let targets = file_targets(config, file);
    let ghost whole = check_steps(
        Progress::Done { findings: finding_views(old(findings)@), source: state_before(cache) },
        token_limit_name(),
        file@,
        content@,
        spec_file_targets(*config, file@),
    );
    let mut current = cache;
    let first = match &mut current {
        Some(c) => check_each("token-limit", file, content, &targets, findings, Some(&mut **c)),
        None => check_each("token-limit", file, content, &targets, findings, None),
    };
    match first {
        Ok(_) => {},
        Err(e) => {
            proof {
                frontmatter_limit::lemma_check_file_from_stopped(
                    whole,
                    *config,
                    file@,
                    content@,
                );
                assert(whole.source() == state_before(current));
            }
            return Err(e);
        },
    }
    frontmatter_limit::check_file_into(config, file, content, findings, current)
}

/// The token findings of one document: for each model of the token limit
/// one on the whole document, then for each model of the front matter limit
/// one on the front matter.
pub fn lint_file(config: &Config, file: &str, content: &str, cache: Option<&mut TokenCache>) -> (r:
    Result<Vec<LintFinding>, LintError>)
    ensures
        gave(
            spec_lint_file(fresh(state_before(cache)), *config, file@, content@),
            r,
            match cache {
                Some(c) => Some(final(c)@),
                None => None,
            },
        ),
{
    let mut findings: Vec<LintFinding> = Vec::new();
    assert(finding_views(findings@) =~= Seq::empty());
    match lint_file_into(config, file, content, &mut findings, cache) {
        Ok(_) => Ok(findings),
        Err(e) => Err(e),
    }
}

/// The structure finding of one document, if the structure rule is on.
pub fn check_structure(config: &Config, file: &str, content: &str) -> (r: Option<StructureFinding>)
    ensures
        match r {
            Some(f) => spec_check_structure(*config, file@, content@) == Some(f@),
            None => spec_check_structure(*config, file@, content@) is None,
        },
{
    match config.rules.skill_structure {
        Some(true) => Some(skill_structure::lint_file(file, content)),
        _ => None,
    }
}

/// Runs every rule on `files`: first each file by itself, in order, then the
/// rules that need the whole corpus. Stops at the first error.
pub fn run(config: &Config, files: &Vec<SourceFile>, cache: Option<&mut TokenCache>) -> (r: Result<
    LintReport,
    LintError,
>)
    ensures
        ran(
            spec_token_pass(fresh(state_before(cache)), *config, file_views(files@)),
            spec_structure_findings(*config, file_views(files@)),
            r,
            match cache {
                Some(c) => Some(final(c)@),
                None => None,
            },
        ),
{
    let ghost init = cache;
    let ghost fs = file_views(files@);
    let ghost start = fresh(state_before(cache));
    let mut current = cache;
    let mut findings: Vec<LintFinding> = Vec::new();
    let mut structure: Vec<StructureFinding> = Vec::new();
    assert(finding_views(findings@) =~= Seq::empty());
    assert(structure_views(structure@) =~= Seq::empty());
    let mut i: usize = 0;
    while i < files.len()
        invariant
            i <= files.len(),
            init == cache,
            fs == file_views(files@),
            start == fresh(state_before(init)),
            (match current {
                Some(c) => Some(final(c)@),
                None => None,
            }) == (match init {
                Some(c) => Some(final(c)@),
                None => None,
            }),
            spec_lint_files(start, *config, fs, i as int) == (Progress::Done {
                findings: finding_views(findings@),
                source: state_before(current),
            }),
            structure_views(structure@) == structure_pass(*config, fs, i as int),
        decreases files.len() - i,
    {
        let file = &files[i];
        assert(fs[i as int] == file@);
        let r = match &mut current {
            Some(c) => lint_file_into(
                config,
                file.path.as_str(),
                file.content.as_str(),
                &mut findings,
                Some(&mut **c),
            ),
            None => lint_file_into(
                config,
                file.path.as_str(),
                file.content.as_str(),
                &mut findings,
                None,
            ),
        };
        match r {
            Ok(_) => {},
            Err(e) => {
                proof {
                    lemma_token_pass_stops(start, *config, fs, i + 1, fs.len() as int);
                }
                return Err(e);
            },
        }
        match check_structure(config, file.path.as_str(), file.content.as_str()) {
            Some(f) => {
                let ghost before = structure@;
                structure.push(f);
                assert(structure_views(structure@) =~= structure_views(before).push(f@));
            },
            None => {},
        }
        i = i + 1;
    }
    match skill_index_budget::check_all_into(config, files, &mut findings, current) {
        Ok(_) => {},
        Err(e) => {
            return Err(e);
        },
    }
    let mut unique = unique_fields::check_all(config, files);
    let ghost first = structure@;
    let ghost second = unique@;
    structure.append(&mut unique);
    assert(structure_views(structure@) =~= structure_views(first) + structure_views(second));
    Ok(LintReport::new(findings, structure))
}

/// Runs the rules that look at one file by itself, on one file.
pub fn run_single(config: &Config, file: &str, content: &str, cache: Option<&mut TokenCache>) -> (r:
    Result<LintReport, LintError>)
    ensures
        ran(
            spec_lint_file(fresh(state_before(cache)), *config, file@, content@),
            match spec_check_structure(*config, file@, content@) {
                Some(f) => seq![f],
                None => Seq::empty(),
            },
            r,
            match cache {
                Some(c) => Some(final(c)@),
                None => None,
            },
        ),
{
    let findings = match lint_file(config, file, content, cache) {
        Ok(findings) => findings,
        Err(e) => {
            return Err(e);
        },
    };
    let mut structure: Vec<StructureFinding> = Vec::new();
    assert(structure_views(structure@) =~= Seq::empty());
    match check_structure(config, file, content) {
        Some(f) => {
            structure.push(f);
            assert(structure_views(structure@) =~= seq![f@]);
        },
        None => {},
    }
    Ok(LintReport::new(findings, structure))
}

} // verus!
