//! Token counts held against a budget: the rule behind every token finding.

use crate::cache::{
    answered, cached_count, expected, source_after, state_before, Answer, CacheState, TokenCache,
};
use crate::config::{resolve_in, Config, ModelBudget, ResolvedBudget, ResolvedBudgetView};
use crate::errors::LintError;
use crate::table::{lemma_index_of_ascending, Table};
use crate::tokenizer::count_tokens;
use crate::types::{finding_views, LintFinding, LintFindingView, Severity};
use vstd::prelude::*;

verus! {

/// The severity of `count` tokens under the two thresholds: `Error` from the
/// error threshold on, else `Warning` from the warning threshold on, else
/// `Pass`. The error threshold is looked at first.
pub open spec fn classify(count: nat, warning: nat, error: nat) -> Severity {
    if count >= error {
        Severity::Error
    } else if count >= warning {
        Severity::Warning
    } else {
        Severity::Pass
    }
}

/// A count at the error threshold is an error; one at the warning threshold
/// and below the error threshold is a warning; one below both is a pass.
pub proof fn lemma_classify_boundaries(count: nat, warning: nat, error: nat)
    ensures
        count == error ==> classify(count, warning, error) == Severity::Error,
        count == warning && count < error ==> classify(count, warning, error)
            == Severity::Warning,
        count < warning && count < error ==> classify(count, warning, error) == Severity::Pass,
{
}

/// More tokens are never judged less severe.
pub proof fn lemma_classify_monotonic(low: nat, high: nat, warning: nat, error: nat)
    requires
        low <= high,
    ensures
        classify(low, warning, error).rank() <= classify(high, warning, error).rank(),
{
}

/// The severity of `count` tokens under the two thresholds.
pub fn severity_of(count: usize, warning: usize, error: usize) -> (r: Severity)
    ensures
        r == classify(count as nat, warning as nat, error as nat),
{
    if count >= error {
        Severity::Error
    } else if count >= warning {
        Severity::Warning
    } else {
        Severity::Pass
    }
}

/// The finding that `count` tokens give under `budget`.
pub open spec fn spec_finding(
    rule: Seq<char>,
    file: Seq<char>,
    model: Seq<char>,
    count: nat,
    budget: ResolvedBudgetView,
) -> LintFindingView {
    LintFindingView {
        rule,
        file,
        model,
        token_count: count,
        warning_threshold: budget.warning,
        error_threshold: budget.error,
        severity: classify(count, budget.warning, budget.error),
    }
}

/// The finding that `count` tokens give under `budget`.
pub fn finding_for(rule: &str, file: &str, model: &str, count: usize, budget: &ResolvedBudget) -> (f:
    LintFinding)
    ensures
        f@ == spec_finding(rule@, file@, model@, count as nat, budget@),
{
    LintFinding {
        rule: rule.to_string(),
        file: file.to_string(),
        model: model.to_string(),
        token_count: count,
        warning_threshold: budget.warning,
        error_threshold: budget.error,
        severity: severity_of(count, budget.warning, budget.error),
    }
}

/// Whether a check of `content` under `budget` may take the cache from
/// `before` to `after` and give `r`: the request for the count was answered
/// as `answered` says, and a finding is the one that the count gives.
pub open spec fn checked(
    before: Option<CacheState>,
    after: Option<CacheState>,
    rule: Seq<char>,
    file: Seq<char>,
    model: Seq<char>,
    content: Seq<char>,
    budget: ResolvedBudgetView,
    r: Result<LintFinding, LintError>,
) -> bool {
    match r {
        Ok(f) => answered(
            before,
            after,
            content,
            budget.encoding,
            Ok::<usize, LintError>(f.token_count),
        ) && f@ == spec_finding(rule, file, model, f.token_count as nat, budget),
        Err(e) => answered(before, after, content, budget.encoding, Err::<usize, LintError>(e)),
    }
}

/// Counts the tokens of `content` under the budget's encoding, through the
/// cache if there is one, and holds the count against the budget.
pub fn check(
    rule: &str,
    file: &str,
    model: &str,
    content: &str,
    budget: &ResolvedBudget,
    cache: Option<&mut TokenCache>,
) -> (r: Result<LintFinding, LintError>)
    ensures
        checked(
            state_before(cache),
            match cache {
                Some(c) => Some(final(c)@),
                None => None,
            },
            rule@,
            file@,
            model@,
            content@,
            budget@,
            r,
        ),
{
    let counted = match cache {
        Some(c) => c.count_tokens(content, budget.encoding.as_str()),
        None => count_tokens(content, budget.encoding.as_str()),
    };
    match counted {
        Ok(count) => Ok(finding_for(rule, file, model, count, budget)),
        Err(e) => Err(e),
    }
}

/// A model with the budget that applies to it.
pub struct Target {
    pub model: String,
    pub budget: ResolvedBudget,
}

/// What a `Target` says.
pub struct TargetView {
    pub model: Seq<char>,
    pub budget: ResolvedBudgetView,
}

impl View for Target {
    type V = TargetView;

    open spec fn view(&self) -> TargetView {
        TargetView { model: self.model@, budget: self.budget@ }
    }
}

/// The views of a list of targets.
pub open spec fn target_views(v: Seq<Target>) -> Seq<TargetView> {
    v.map_values(|t: Target| t@)
}

/// Where a series of checks stands: it has come through so far, or it has
/// stopped at a check for which there is no count. Either way it holds the
/// findings gathered and the cache as it was left.
pub enum Progress {
    /// Every check so far gave a finding.
    Done { findings: Seq<LintFindingView>, source: Option<CacheState> },
    /// A check asked for an encoding that is none.
    UnknownEncoding { findings: Seq<LintFindingView>, source: Option<CacheState>, name: Seq<char> },
    /// The tokenizer failed on the text of a check, for this model and file
    /// under this rule.
    TokenizerFailure {
        findings: Seq<LintFindingView>,
        source: Option<CacheState>,
        rule: Seq<char>,
        file: Seq<char>,
        model: Seq<char>,
    },
}

impl Progress {
    /// The findings gathered.
    pub open spec fn findings(self) -> Seq<LintFindingView> {
        match self {
            Progress::Done { findings, .. } => findings,
            Progress::UnknownEncoding { findings, .. } => findings,
            Progress::TokenizerFailure { findings, .. } => findings,
        }
    }

    /// The cache as it was left.
    pub open spec fn source(self) -> Option<CacheState> {
        match self {
            Progress::Done { source, .. } => source,
            Progress::UnknownEncoding { source, .. } => source,
            Progress::TokenizerFailure { source, .. } => source,
        }
    }

    /// Whether `r` is how a series that stands here ends: with success if it
    /// has come through, with an unknown-encoding error that carries the
    /// name if it has stopped at one, and with a tokenizer error if the
    /// tokenizer has failed.
    pub open spec fn ends_with<T>(self, r: Result<T, LintError>) -> bool {
        match r {
            Ok(_) => self is Done,
            Err(LintError::UnknownEncoding(name)) => self matches Progress::UnknownEncoding {
                name: n,
                ..
            } && n == name@,
            Err(LintError::Tokenizer(_)) => self is TokenizerFailure,
            Err(_) => false,
        }
    }
}

/// `progress` after one more check, of `content` for `target`. A series that
/// has stopped stays where it is.
pub open spec fn check_step(
    progress: Progress,
    rule: Seq<char>,
    file: Seq<char>,
    content: Seq<char>,
    target: TargetView,
) -> Progress {
    match progress {
        Progress::Done { findings, source } => match expected(
            source,
            content,
            target.budget.encoding,
        ) {
            Answer::Count { n } => Progress::Done {
                findings: findings.push(spec_finding(rule, file, target.model, n, target.budget)),
                source: source_after(source, content, target.budget.encoding, n as usize),
            },
            Answer::UnknownEncoding => Progress::UnknownEncoding {
                findings,
                source,
                name: target.budget.encoding,
            },
            Answer::TokenizerFailure => Progress::TokenizerFailure {
                findings,
                source,
                rule,
                file,
                model: target.model,
            },
        },
        _ => progress,
    }
}

/// `progress` after a check of `content` for each of `targets`, in order.
pub open spec fn check_steps(
    progress: Progress,
    rule: Seq<char>,
    file: Seq<char>,
    content: Seq<char>,
    targets: Seq<TargetView>,
) -> Progress
    decreases targets.len(),
{
    if targets.len() == 0 {
        progress
    } else {
        check_step(
            check_steps(progress, rule, file, content, targets.drop_last()),
            rule,
            file,
            content,
            targets.last(),
        )
    }
}

/// Whether a series of checks that gets to `goal` ends with `r`, the
/// findings in `findings` and the cache as `after`. The series succeeds
/// exactly if the goal is that it comes through; it fails with the error of
/// the check at which the goal stops. The findings and the cache are those
/// of the goal, so after a failure they are what was gathered and cached up
/// to the check that failed.
pub open spec fn reached(
    goal: Progress,
    findings: Seq<LintFindingView>,
    after: Option<CacheState>,
    r: Result<(), LintError>,
) -> bool {
    goal.ends_with(r) && goal.findings() == findings && goal.source() == after
}

/// A check whose count is cached gives a finding, whatever the encoding's
/// name and the tokenizer: a series stops only where a count is missing.
pub proof fn lemma_cached_check_comes_through(
    findings: Seq<LintFindingView>,
    source: Option<CacheState>,
    rule: Seq<char>,
    file: Seq<char>,
    content: Seq<char>,
    target: TargetView,
)
    requires
        cached_count(source, content, target.budget.encoding) is Some,
    ensures
        check_step(Progress::Done { findings, source }, rule, file, content, target) is Done,
        check_step(Progress::Done { findings, source }, rule, file, content, target).source()
            == source,
{
}

/// Checks `content` for each of `targets` in order and appends the findings
/// to `findings`. Stops at the first error.
pub fn check_each(
    rule: &str,
    file: &str,
    content: &str,
    targets: &Vec<Target>,
    findings: &mut Vec<LintFinding>,
    cache: Option<&mut TokenCache>,
) -> (r: Result<(), LintError>)
    ensures
        reached(
            check_steps(
                Progress::Done {
                    findings: finding_views(old(findings)@),
                    source: state_before(cache),
                },
                rule@,
                file@,
                content@,
                target_views(targets@),
            ),
            finding_views(final(findings)@),
            match cache {
                Some(c) => Some(final(c)@),
                None => None,
            },
            r,
        ),
{
    let ghost init = cache;
    let mut current = cache;
    let ghost start = Progress::Done {
        findings: finding_views(old(findings)@),
        source: state_before(cache),
    };
    let ghost all = target_views(targets@);
    let mut i: usize = 0;
    assert(all.take(0) =~= Seq::<TargetView>::empty());
    while i < targets.len()
        invariant
            i <= targets.len(),
            init == cache,
            all == target_views(targets@),
            start == (Progress::Done {
                findings: finding_views(old(findings)@),
                source: state_before(init),
            }),
            (match current {
                Some(c) => Some(final(c)@),
                None => None,
            }) == (match init {
                Some(c) => Some(final(c)@),
                None => None,
            }),
            check_steps(start, rule@, file@, content@, all.take(i as int)) == (Progress::Done {
                findings: finding_views(findings@),
                source: state_before(current),
            }),
        decreases targets.len() - i,
    {
        proof {
            assert(all.take(i + 1).drop_last() =~= all.take(i as int));
            assert(all.take(i + 1).last() == targets@[i as int]@);
        }
        let target = &targets[i];
        let r = match &mut current {
            Some(c) => check(
                rule,
                file,
                target.model.as_str(),
                content,
                &target.budget,
                Some(&mut **c),
            ),
            None => check(rule, file, target.model.as_str(), content, &target.budget, None),
        };
        match r {
            Ok(f) => {
                let ghost before = findings@;
                findings.push(f);
                assert(finding_views(findings@) =~= finding_views(before).push(f@));
            },
            Err(e) => {
                proof {
                    let next = check_steps(start, rule@, file@, content@, all.take(i + 1));
                    assert(next == check_step(
                        check_steps(start, rule@, file@, content@, all.take(i as int)),
                        rule@,
                        file@,
                        content@,
                        targets@[i as int]@,
                    ));
                    assert(next !is Done);
                    lemma_steps_stop(start, rule@, file@, content@, all, i + 1);
                }
                return Err(e);
            },
        }
        i = i + 1;
    }
    assert(all.take(all.len() as int) =~= all);
    Ok(())
}

/// Once a series has stopped, further checks change nothing.
pub proof fn lemma_steps_stop(
    start: Progress,
    rule: Seq<char>,
    file: Seq<char>,
    content: Seq<char>,
    targets: Seq<TargetView>,
    k: int,
)
    requires
        0 <= k <= targets.len(),
        check_steps(start, rule, file, content, targets.take(k)) !is Done,
    ensures
        check_steps(start, rule, file, content, targets) == check_steps(
            start,
            rule,
            file,
            content,
            targets.take(k),
        ),
    decreases targets.len() - k,
{
    if k == targets.len() {
        assert(targets.take(k) =~= targets);
    } else {
        let front = targets.drop_last();
        assert(front.take(k) =~= targets.take(k));
        lemma_steps_stop(start, rule, file, content, front, k);
    }
}

/// Whether a series of checks that gets to `goal` ends with `r` and the
/// cache as `after`: as `reached` says, the findings being those that `r`
/// holds. A failure holds no findings.
pub open spec fn gave(
    goal: Progress,
    r: Result<Vec<LintFinding>, LintError>,
    after: Option<CacheState>,
) -> bool {
    goal.ends_with(r) && goal.source() == after && (r matches Ok(findings) ==> goal.findings()
        == finding_views(findings@))
}

/// The start of a series of checks: no findings yet.
pub open spec fn fresh(source: Option<CacheState>) -> Progress {
    Progress::Done { findings: Seq::empty(), source }
}

/// The models of the token limit with the budget of each for `file`, in
/// ascending order of the names.
pub open spec fn spec_file_targets(config: Config, file: Seq<char>) -> Seq<TargetView> {
    let names = config.rules.token_limit.models.names();
    Seq::new(
        names.len(),
        |i: int|
            TargetView {
                model: names[i],
                budget: config.spec_resolve_token_limit(file, names[i])->Some_0,
            },
    )
}

/// The models of `table` with the budget of each, in ascending order of the
/// names.
pub open spec fn spec_table_targets(table: Table<ModelBudget>) -> Seq<TargetView> {
    let names = table.names();
    Seq::new(
        names.len(),
        |i: int| TargetView { model: names[i], budget: resolve_in(table, names[i])->Some_0 },
    )
}

/// The models of the token limit with the budget of each for `file`.
pub fn file_targets(config: &Config, file: &str) -> (targets: Vec<Target>)
    ensures
        target_views(targets@) == spec_file_targets(*config, file@),
{
    let table = &config.rules.token_limit.models;
    let n = table.len();
    let ghost goal = spec_file_targets(*config, file@);
    let mut targets: Vec<Target> = Vec::new();
    let mut i: usize = 0;
    while i < n
        invariant
            i <= n,
            n == table.names().len(),
            table == &config.rules.token_limit.models,
            table.wf(),
            goal == spec_file_targets(*config, file@),
            target_views(targets@) == goal.take(i as int),
        decreases n - i,
    {
        let name = table.name_at(i);
        proof {
            lemma_index_of_ascending(table.names(), i as int);
        }
        match config.resolve_token_limit(file, name.as_str()) {
            Some(budget) => {
                let ghost before = targets@;
                let target = Target { model: name.clone(), budget };
                assert(target@ == goal[i as int]);
                targets.push(target);
                assert(target_views(targets@) =~= target_views(before).push(goal[i as int]));
            },
            None => {},
        }
        i = i + 1;
        assert(target_views(targets@) =~= goal.take(i as int));
    }
    assert(goal.take(goal.len() as int) =~= goal);
    targets
}

/// The models of `table` with the budget of each.
pub fn table_targets(table: &Table<ModelBudget>) -> (targets: Vec<Target>)
    ensures
        target_views(targets@) == spec_table_targets(*table),
{
    let n = table.len();
    let ghost goal = spec_table_targets(*table);
    let mut targets: Vec<Target> = Vec::new();
    let mut i: usize = 0;
    while i < n
        invariant
            i <= n,
            n == table.names().len(),
            table.wf(),
            goal == spec_table_targets(*table),
            target_views(targets@) == goal.take(i as int),
        decreases n - i,
    {
        let name = table.name_at(i);
        let global = table.value_at(i);
        let budget = crate::config::BudgetBuilder::start(global).finish(name.as_str());
        let ghost before = targets@;
        let target = Target { model: name.clone(), budget };
        assert(target@ == goal[i as int]);
        targets.push(target);
        assert(target_views(targets@) =~= target_views(before).push(goal[i as int]));
        i = i + 1;
        assert(target_views(targets@) =~= goal.take(i as int));
    }
    assert(goal.take(goal.len() as int) =~= goal);
    targets
}

/// A series that has stopped stays where it is.
pub proof fn lemma_steps_from_stopped(
    start: Progress,
    rule: Seq<char>,
    file: Seq<char>,
    content: Seq<char>,
    targets: Seq<TargetView>,
)
    requires
        start !is Done,
    ensures
        check_steps(start, rule, file, content, targets) == start,
{
    assert(targets.take(0) =~= Seq::<TargetView>::empty());
    lemma_steps_stop(start, rule, file, content, targets, 0);
}

} // verus!
