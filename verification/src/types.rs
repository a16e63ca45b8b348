//! Findings, their severity, and the report that collects them.

use vstd::prelude::*;

verus! {

/// Severity level of a finding, ordered `Pass < Warning < Error`.
#[derive(Debug, Clone, Copy, PartialEq, Eq, PartialOrd, Ord, Hash, Structural)]
pub enum Severity {
    Pass,
    Warning,
    Error,
}

impl Severity {
    /// Position in the order `Pass < Warning < Error`.
    pub open spec fn rank(self) -> nat {
        match self {
            Severity::Pass => 0,
            Severity::Warning => 1,
            Severity::Error => 2,
        }
    }

    /// The greater of two severities.
    pub open spec fn spec_max(self, other: Severity) -> Severity {
        if self.rank() >= other.rank() {
            self
        } else {
            other
        }
    }

    /// The text shown for this severity.
    pub open spec fn spec_label(self) -> Seq<char> {
        match self {
            Severity::Pass => "PASS"@,
            Severity::Warning => "WARN"@,
            Severity::Error => "ERROR"@,
        }
    }

    /// The greater of two severities.
    pub fn max(self, other: Severity) -> (r: Severity)
        ensures
            r == self.spec_max(other),
    {
        match (self, other) {
            (Severity::Error, _) => Severity::Error,
            (_, Severity::Error) => Severity::Error,
            (Severity::Warning, _) => Severity::Warning,
            (_, Severity::Warning) => Severity::Warning,
            _ => Severity::Pass,
        }
    }

    /// The text shown for this severity: `PASS`, `WARN` or `ERROR`.
    pub fn label(&self) -> (s: String)
        ensures
            s@ == self.spec_label(),
    {
        match self {
            Severity::Pass => "PASS".to_string(),
            Severity::Warning => "WARN".to_string(),
            Severity::Error => "ERROR".to_string(),
        }
    }
}

/// A token count of one text, for one model, held against its thresholds.
#[derive(Debug, Clone)]
pub struct LintFinding {
    pub rule: String,
    pub file: String,
    pub model: String,
    pub token_count: usize,
    pub warning_threshold: usize,
    pub error_threshold: usize,
    pub severity: Severity,
}

/// What a `LintFinding` says.
pub struct LintFindingView {
    pub rule: Seq<char>,
    pub file: Seq<char>,
    pub model: Seq<char>,
    pub token_count: nat,
    pub warning_threshold: nat,
    pub error_threshold: nat,
    pub severity: Severity,
}

impl View for LintFinding {
    type V = LintFindingView;

    open spec fn view(&self) -> LintFindingView {
        LintFindingView {
            rule: self.rule@,
            file: self.file@,
            model: self.model@,
            token_count: self.token_count as nat,
            warning_threshold: self.warning_threshold as nat,
            error_threshold: self.error_threshold as nat,
            severity: self.severity,
        }
    }
}

/// A structural verdict on one file.
#[derive(Debug, Clone)]
pub struct StructureFinding {
    pub rule: String,
    pub file: String,
    pub message: String,
    pub severity: Severity,
}

/// What a `StructureFinding` says.
pub struct StructureFindingView {
    pub rule: Seq<char>,
    pub file: Seq<char>,
    pub message: Seq<char>,
    pub severity: Severity,
}

impl View for StructureFinding {
    type V = StructureFindingView;

    open spec fn view(&self) -> StructureFindingView {
        StructureFindingView {
            rule: self.rule@,
            file: self.file@,
            message: self.message@,
            severity: self.severity,
        }
    }
}

/// The views of a list of token findings.
pub open spec fn finding_views(v: Seq<LintFinding>) -> Seq<LintFindingView> {
    v.map_values(|f: LintFinding| f@)
}

/// The views of a list of structure findings.
pub open spec fn structure_views(v: Seq<StructureFinding>) -> Seq<StructureFindingView> {
    v.map_values(|f: StructureFinding| f@)
}

/// The greatest severity in `s`, `Pass` when `s` is empty.
pub open spec fn worst_of(s: Seq<Severity>) -> Severity
    decreases s.len(),
{
    if s.len() == 0 {
        Severity::Pass
    } else {
        worst_of(s.drop_last()).spec_max(s.last())
    }
}

/// All findings of a run.
#[derive(Debug, Clone)]
pub struct LintReport {
    pub findings: Vec<LintFinding>,
    pub structure_findings: Vec<StructureFinding>,
}

impl LintReport {
    /// The severities of all findings: token findings first, then structure
    /// findings.
    pub open spec fn severities(&self) -> Seq<Severity> {
        self.findings@.map_values(|f: LintFinding| f.severity)
            + self.structure_findings@.map_values(|f: StructureFinding| f.severity)
    }

    /// A report of these findings.
    pub fn new(findings: Vec<LintFinding>, structure_findings: Vec<StructureFinding>) -> (r: Self)
        ensures
            r.findings == findings,
            r.structure_findings == structure_findings,
    {
        LintReport { findings, structure_findings }
    }

    /// The worst severity across all findings, `Pass` if there is none.
    pub fn worst_severity(&self) -> (r: Severity)
        ensures
            r == worst_of(self.severities()),
    {
        let ghost a = self.findings@.map_values(|f: LintFinding| f.severity);
        let ghost b = self.structure_findings@.map_values(|f: StructureFinding| f.severity);
        let mut worst = Severity::Pass;
        let mut i: usize = 0;
        assert(a.take(0) =~= Seq::<Severity>::empty());
        while i < self.findings.len()
            invariant
                i <= self.findings.len(),
                a == self.findings@.map_values(|f: LintFinding| f.severity),
                worst == worst_of(a.take(i as int)),
            decreases self.findings.len() - i,
        {
            assert(a.take(i + 1).drop_last() =~= a.take(i as int));
            worst = worst.max(self.findings[i].severity);
            i = i + 1;
        }
        assert(a.take(a.len() as int) =~= a);
        assert(a + b.take(0) =~= a);
        let mut j: usize = 0;
        while j < self.structure_findings.len()
            invariant
                j <= self.structure_findings.len(),
                b == self.structure_findings@.map_values(|f: StructureFinding| f.severity),
                worst == worst_of(a + b.take(j as int)),
            decreases self.structure_findings.len() - j,
        {
            assert((a + b.take(j + 1)).drop_last() =~= a + b.take(j as int));
            worst = worst.max(self.structure_findings[j].severity);
            j = j + 1;
        }
        assert(b.take(b.len() as int) =~= b);
        worst
    }
}

/// The worst severity of no findings at all is `Pass`.
pub proof fn lemma_worst_of_empty()
    ensures
        worst_of(Seq::<Severity>::empty()) == Severity::Pass,
{
}

/// The worst severity is at least as severe as every finding, and it is the
/// severity of one of them unless it is `Pass`.
pub proof fn lemma_worst_is_greatest(s: Seq<Severity>)
    ensures
        forall|i: int| 0 <= i < s.len() ==> (#[trigger] s[i]).rank() <= worst_of(s).rank(),
        worst_of(s) == Severity::Pass || s.contains(worst_of(s)),
    decreases s.len(),
{
    if s.len() > 0 {
        let t = s.drop_last();
        lemma_worst_is_greatest(t);
        assert forall|i: int| 0 <= i < s.len() implies (#[trigger] s[i]).rank() <= worst_of(
            s,
        ).rank() by {
            if i < s.len() - 1 {
                assert(s[i] == t[i]);
            }
        }
        if worst_of(s) != Severity::Pass {
            if worst_of(s) == s.last() {
                assert(s[s.len() - 1] == worst_of(s));
            } else {
                let k = choose|k: int| 0 <= k < t.len() && t[k] == worst_of(t);
                assert(s[k] == worst_of(s));
            }
        }
    }
}

/// One `Error` among the findings makes the worst severity `Error`, whatever
/// the others are.
pub proof fn lemma_worst_with_error(s: Seq<Severity>)
    requires
        s.contains(Severity::Error),
    ensures
        worst_of(s) == Severity::Error,
{
    lemma_worst_is_greatest(s);
    let k = choose|k: int| 0 <= k < s.len() && s[k] == Severity::Error;
    assert(s[k].rank() <= worst_of(s).rank());
}

/// A report without findings has the worst severity `Pass`; a report with a
/// token finding or a structure finding of severity `Error` has `Error`.
pub proof fn lemma_report_rollup(report: LintReport)
    ensures
        report.findings@.len() == 0 && report.structure_findings@.len() == 0 ==> worst_of(
            report.severities(),
        ) == Severity::Pass,
        (exists|i: int|
            0 <= i < report.findings@.len() && (#[trigger] report.findings@[i]).severity
                == Severity::Error) ==> worst_of(report.severities()) == Severity::Error,
        (exists|i: int|
            0 <= i < report.structure_findings@.len() && (
            #[trigger] report.structure_findings@[i]).severity == Severity::Error) ==> worst_of(
            report.severities(),
        ) == Severity::Error,
{
    let a = report.findings@.map_values(|f: LintFinding| f.severity);
    let b = report.structure_findings@.map_values(|f: StructureFinding| f.severity);
    let s = report.severities();
    if exists|i: int|
        0 <= i < report.findings@.len() && (#[trigger] report.findings@[i]).severity
            == Severity::Error {
        let i = choose|i: int|
            0 <= i < report.findings@.len() && (#[trigger] report.findings@[i]).severity
                == Severity::Error;
        assert(s[i] == a[i]);
        assert(s[i] == Severity::Error);
        lemma_worst_with_error(s);
    }
    if exists|i: int|
        0 <= i < report.structure_findings@.len() && (
        #[trigger] report.structure_findings@[i]).severity == Severity::Error {
        let i = choose|i: int|
            0 <= i < report.structure_findings@.len() && (
            #[trigger] report.structure_findings@[i]).severity == Severity::Error;
        assert(s[a.len() + i] == b[i]);
        assert(s[a.len() + i] == Severity::Error);
        lemma_worst_with_error(s);
    }
}

} // verus!
