//! How a report is shown: which files get a section and which findings a
//! row, the counts of the summary, numbers with thousands separators, the
//! text of a status, and the exit status of a run.

use crate::rules::skill_index_budget::{aggregate_label, AGGREGATE_LABEL};
use crate::text::{same_text, string_of, string_views};
use crate::types::{LintFinding, LintReport, Severity, StructureFinding};
use vstd::prelude::*;

verus! {

/// The decimal digit of `d`.
pub open spec fn decimal_digit(d: nat) -> char {
    if d == 0 {
        '0'
    } else if d == 1 {
        '1'
    } else if d == 2 {
        '2'
    } else if d == 3 {
        '3'
    } else if d == 4 {
        '4'
    } else if d == 5 {
        '5'
    } else if d == 6 {
        '6'
    } else if d == 7 {
        '7'
    } else if d == 8 {
        '8'
    } else {
        '9'
    }
}

/// `n` in decimal, without leading zeros.
pub open spec fn decimal(n: nat) -> Seq<char>
    decreases n,
{
    if n < 10 {
        seq![decimal_digit(n)]
    } else {
        decimal(n / 10).push(decimal_digit(n % 10))
    }
}

/// The three decimal digits of a number below 1000.
pub open spec fn three_digits(m: nat) -> Seq<char> {
    seq![decimal_digit(m / 100), decimal_digit((m / 10) % 10), decimal_digit(m % 10)]
}

/// `n` in decimal, with a comma before each group of three digits but the
/// first.
pub open spec fn grouped(n: nat) -> Seq<char>
    decreases n,
{
    if n < 1000 {
        decimal(n)
    } else {
        grouped(n / 1000) + seq![','] + three_digits(n % 1000)
    }
}

/// The status shown for a severity.
pub open spec fn spec_status_text(severity: Severity) -> Seq<char> {
    match severity {
        Severity::Pass => "✓ PASS"@,
        Severity::Warning => "⚠ WARN"@,
        Severity::Error => "✗ ERROR"@,
    }
}

/// The exit status of a run with this worst severity.
pub open spec fn spec_exit_code(worst: Severity) -> int {
    match worst {
        Severity::Pass => 0,
        Severity::Error => 1,
        Severity::Warning => 2,
    }
}

fn digit_of(d: usize) -> (c: char)
    requires
        d < 10,
    ensures
        c == decimal_digit(d as nat),
{
    if d == 0 {
        '0'
    } else if d == 1 {
        '1'
    } else if d == 2 {
        '2'
    } else if d == 3 {
        '3'
    } else if d == 4 {
        '4'
    } else if d == 5 {
        '5'
    } else if d == 6 {
        '6'
    } else if d == 7 {
        '7'
    } else if d == 8 {
        '8'
    } else {
        '9'
    }
}

fn push_decimal(n: usize, out: &mut Vec<char>)
    ensures
        final(out)@ == old(out)@ + decimal(n as nat),
    decreases n,
{
    if n >= 10 {
        push_decimal(n / 10, out);
    }
    out.push(digit_of(n % 10));
    assert(out@ =~= old(out)@ + decimal(n as nat));
}

fn push_grouped(n: usize, out: &mut Vec<char>)
    ensures
        final(out)@ == old(out)@ + grouped(n as nat),
    decreases n,
{
    if n < 1000 {
        push_decimal(n, out);
    } else {
        push_grouped(n / 1000, out);
        let m = n % 1000;
        out.push(',');
        out.push(digit_of(m / 100));
        out.push(digit_of((m / 10) % 10));
        out.push(digit_of(m % 10));
        assert(out@ =~= old(out)@ + grouped(n as nat));
    }
}

/// `n` in decimal with thousands separators: `1234567` becomes `1,234,567`.
pub fn format_number(n: usize) -> (s: String)
    ensures
        s@ == grouped(n as nat),
{
    let mut out: Vec<char> = Vec::new();
    push_grouped(n, &mut out);
    assert(out@ =~= grouped(n as nat));
    string_of(&out)
}

/// The status shown for a severity.
pub fn status_text(severity: Severity) -> (s: &'static str)
    ensures
        s@ == spec_status_text(severity),
{
    match severity {
        Severity::Pass => "✓ PASS",
        Severity::Warning => "⚠ WARN",
        Severity::Error => "✗ ERROR",
    }
}

/// Whether a finding of this severity is shown when passes are left out.
pub fn is_notable(severity: Severity) -> (r: bool)
    ensures
        r == (severity != Severity::Pass),
{
    match severity {
        Severity::Pass => false,
        _ => true,
    }
}

/// The exit status of a run with this worst severity: 0 for a pass, 1 for
/// an error, 2 for a warning.
pub fn exit_code(worst: Severity) -> (code: i32)
    ensures
        code == spec_exit_code(worst),
{
    match worst {
        Severity::Pass => 0,
        Severity::Error => 1,
        Severity::Warning => 2,
    }
}

/// Whether a finding of this severity is shown: always when passes are
/// shown too, else only if it is no pass.
pub open spec fn shown(severity: Severity, verbose: bool) -> bool {
    verbose || severity != Severity::Pass
}

/// The indices, among the first `n` token findings, of those on `file` that
/// are shown, in order.
pub open spec fn token_rows_upto(
    findings: Seq<LintFinding>,
    file: Seq<char>,
    verbose: bool,
    n: int,
) -> Seq<usize>
    decreases n,
{
    if n <= 0 {
        Seq::empty()
    } else {
        let rest = token_rows_upto(findings, file, verbose, n - 1);
        if findings[n - 1].file@ == file && shown(findings[n - 1].severity, verbose) {
            rest.push((n - 1) as usize)
        } else {
            rest
        }
    }
}

/// The index of the first structure finding on `file` at or after `from`.
pub open spec fn first_structure(findings: Seq<StructureFinding>, file: Seq<char>, from: int) -> Option<
    usize,
>
    decreases findings.len() - from,
{
    if from >= findings.len() {
        None
    } else if findings[from].file@ == file {
        Some(from as usize)
    } else {
        first_structure(findings, file, from + 1)
    }
}

/// The index of the structure finding that the section of `file` shows: the
/// first one on that file, if it is shown.
pub open spec fn spec_structure_row(
    findings: Seq<StructureFinding>,
    file: Seq<char>,
    verbose: bool,
) -> Option<usize> {
    match first_structure(findings, file, 0) {
        Some(i) => if shown(findings[i as int].severity, verbose) {
            Some(i)
        } else {
            None
        },
        None => None,
    }
}

/// Whether a finding on `file` is no pass.
pub open spec fn has_notable(report: LintReport, file: Seq<char>) -> bool {
    ||| exists|i: int|
        0 <= i < report.structure_findings@.len() && (
        #[trigger] report.structure_findings@[i]).file@ == file
            && report.structure_findings@[i].severity != Severity::Pass
    ||| exists|i: int|
        0 <= i < report.findings@.len() && (#[trigger] report.findings@[i]).file@ == file
            && report.findings@[i].severity != Severity::Pass
}

/// The file of each finding, structure findings first. A finding on the
/// whole corpus has none.
pub open spec fn finding_files(report: LintReport) -> Seq<Option<Seq<char>>> {
    report.structure_findings@.map_values(|f: StructureFinding| Some(f.file@))
        + report.findings@.map_values(
        |f: LintFinding|
            if f.file@ == aggregate_label() {
                None
            } else {
                Some(f.file@)
            },
    )
}

/// The files among the first `n` of `files`, each once, in the order in
/// which they first occur.
pub open spec fn distinct_upto(files: Seq<Option<Seq<char>>>, n: int) -> Seq<Seq<char>>
    decreases n,
{
    if n <= 0 {
        Seq::empty()
    } else {
        let rest = distinct_upto(files, n - 1);
        match files[n - 1] {
            Some(file) => if rest.contains(file) {
                rest
            } else {
                rest.push(file)
            },
            None => rest,
        }
    }
}

/// The files with findings, each once, in the order in which they first
/// occur: those of the structure findings, then those of the token findings.
pub open spec fn report_files(report: LintReport) -> Seq<Seq<char>> {
    distinct_upto(finding_files(report), finding_files(report).len() as int)
}

/// Those of the first `n` of `files` that get a section: all of them when
/// passes are shown, else those with a finding that is no pass.
pub open spec fn sections_upto(
    report: LintReport,
    files: Seq<Seq<char>>,
    verbose: bool,
    n: int,
) -> Seq<Seq<char>>
    decreases n,
{
    if n <= 0 {
        Seq::empty()
    } else {
        let rest = sections_upto(report, files, verbose, n - 1);
        if verbose || has_notable(report, files[n - 1]) {
            rest.push(files[n - 1])
        } else {
            rest
        }
    }
}

/// The files that get a section, in order.
pub open spec fn spec_section_files(report: LintReport, verbose: bool) -> Seq<Seq<char>> {
    sections_upto(report, report_files(report), verbose, report_files(report).len() as int)
}

/// Whether the findings on the whole corpus get a section: if there are
/// any, and passes are shown or one of them is no pass.
pub open spec fn spec_shows_aggregate(report: LintReport, verbose: bool) -> bool {
    exists|i: int|
        0 <= i < report.findings@.len() && (#[trigger] report.findings@[i]).file@
            == aggregate_label() && shown(report.findings@[i].severity, verbose)
}

/// Number of findings of `severity` among the first `n`.
pub open spec fn count_upto(severities: Seq<Severity>, severity: Severity, n: int) -> nat
    decreases n,
{
    if n <= 0 {
        0
    } else {
        count_upto(severities, severity, n - 1) + if severities[n - 1] == severity {
            1nat
        } else {
            0nat
        }
    }
}

/// Number of findings of `severity` in `report`.
pub open spec fn count_of(report: LintReport, severity: Severity) -> nat {
    count_upto(report.severities(), severity, report.severities().len() as int)
}

/// The numbers under a report.
#[derive(Debug, Clone, Copy, PartialEq, Eq, Structural)]
pub struct Summary {
    pub passed: usize,
    pub warnings: usize,
    pub errors: usize,
    pub files: usize,
}

/// Every finding is counted under exactly one severity.
pub proof fn lemma_counts_add_up(severities: Seq<Severity>, n: int)
    requires
        0 <= n,
    ensures
        count_upto(severities, Severity::Pass, n) + count_upto(severities, Severity::Warning, n)
            + count_upto(severities, Severity::Error, n) == n,
    decreases n,
{
    if n > 0 {
        lemma_counts_add_up(severities, n - 1);
    }
}

/// No file occurs twice among the distinct ones, and there are at most as
/// many as there are findings.
pub proof fn lemma_distinct(files: Seq<Option<Seq<char>>>, n: int)
    requires
        0 <= n <= files.len(),
    ensures
        distinct_upto(files, n).no_duplicates(),
        distinct_upto(files, n).len() <= n,
        forall|file: Seq<char>|
            distinct_upto(files, n).contains(file) <==> exists|i: int|
                0 <= i < n && #[trigger] files[i] == Some(file),
    decreases n,
{
    if n > 0 {
        lemma_distinct(files, n - 1);
        let rest = distinct_upto(files, n - 1);
        let now = distinct_upto(files, n);
        assert forall|file: Seq<char>| now.contains(file) <==> exists|i: int|
            0 <= i < n && #[trigger] files[i] == Some(file) by {
            if now.contains(file) {
                if rest.contains(file) {
                    let i = choose|i: int| 0 <= i < n - 1 && #[trigger] files[i] == Some(file);
                    assert(files[i] == Some(file));
                } else {
                    assert(files[n - 1] == Some(file));
                }
            }
            if exists|i: int| 0 <= i < n && #[trigger] files[i] == Some(file) {
                let i = choose|i: int| 0 <= i < n && #[trigger] files[i] == Some(file);
                if i < n - 1 {
                    assert(rest.contains(file));
                    let k = choose|k: int| 0 <= k < rest.len() && rest[k] == file;
                    assert(now[k] == file);
                } else if rest.contains(file) {
                } else {
                    assert(now[rest.len() as int] == file);
                }
            }
        }
    }
}

fn contains_text(list: &Vec<String>, text: &str) -> (r: bool)
    ensures
        r == string_views(list@).contains(text@),
{
    let ghost all = string_views(list@);
    let mut i: usize = 0;
    while i < list.len()
        invariant
            i <= list.len(),
            all == string_views(list@),
            forall|j: int| 0 <= j < i ==> #[trigger] all[j] != text@,
        decreases list.len() - i,
    {
        if same_text(list[i].as_str(), text) {
            assert(all[i as int] == text@);
            return true;
        }
        i = i + 1;
    }
    false
}

fn is_shown(severity: Severity, verbose: bool) -> (r: bool)
    ensures
        r == shown(severity, verbose),
{
    verbose || is_notable(severity)
}

/// The files with findings, each once, in the order in which they first
/// occur.
pub fn files_of(report: &LintReport) -> (files: Vec<String>)
    ensures
        string_views(files@) == report_files(*report),
{
    let ghost all = finding_files(*report);
    let ghost first = report.structure_findings@.map_values(
        |f: StructureFinding| Some(f.file@),
    );
    let mut files: Vec<String> = Vec::new();
    let mut i: usize = 0;
    assert(string_views(files@) =~= Seq::<Seq<char>>::empty());
    while i < report.structure_findings.len()
        invariant
            i <= report.structure_findings.len(),
            all == finding_files(*report),
            first == report.structure_findings@.map_values(|f: StructureFinding| Some(f.file@)),
            string_views(files@) == distinct_upto(all, i as int),
        decreases report.structure_findings.len() - i,
    {
        assert(all[i as int] == first[i as int]);
        if !contains_text(&files, report.structure_findings[i].file.as_str()) {
            let ghost before = files@;
            files.push(report.structure_findings[i].file.clone());
            assert(string_views(files@) =~= string_views(before).push(
                report.structure_findings@[i as int].file@,
            ));
        }
        i = i + 1;
    }
    let offset = report.structure_findings.len();
    let mut j: usize = 0;
    while j < report.findings.len()
        invariant
            j <= report.findings.len(),
            offset == report.structure_findings.len(),
            all == finding_files(*report),
            first == report.structure_findings@.map_values(|f: StructureFinding| Some(f.file@)),
            string_views(files@) == distinct_upto(all, offset + j),
        decreases report.findings.len() - j,
    {
        assert(all[offset + j] == if report.findings@[j as int].file@ == aggregate_label() {
            None
        } else {
            Some(report.findings@[j as int].file@)
        });
        let file = &report.findings[j].file;
        if !same_text(file.as_str(), AGGREGATE_LABEL) && !contains_text(&files, file.as_str()) {
            let ghost before = files@;
            files.push(file.clone());
            assert(string_views(files@) =~= string_views(before).push(file@));
        }
        j = j + 1;
    }
    files
}

/// Whether a finding on `file` is no pass.
pub fn file_is_notable(report: &LintReport, file: &str) -> (r: bool)
    ensures
        r == has_notable(*report, file@),
{
    let mut i: usize = 0;
    while i < report.structure_findings.len()
        invariant
            i <= report.structure_findings.len(),
            forall|k: int|
                0 <= k < i ==> !((#[trigger] report.structure_findings@[k]).file@ == file@
                    && report.structure_findings@[k].severity != Severity::Pass),
        decreases report.structure_findings.len() - i,
    {
        let f = &report.structure_findings[i];
        if same_text(f.file.as_str(), file) && is_notable(f.severity) {
            return true;
        }
        i = i + 1;
    }
    let mut j: usize = 0;
    while j < report.findings.len()
        invariant
            j <= report.findings.len(),
            forall|k: int|
                0 <= k < report.structure_findings@.len() ==> !((
                #[trigger] report.structure_findings@[k]).file@ == file@
                    && report.structure_findings@[k].severity != Severity::Pass),
            forall|k: int|
                0 <= k < j ==> !((#[trigger] report.findings@[k]).file@ == file@
                    && report.findings@[k].severity != Severity::Pass),
        decreases report.findings.len() - j,
    {
        let f = &report.findings[j];
        if same_text(f.file.as_str(), file) && is_notable(f.severity) {
            return true;
        }
        j = j + 1;
    }
    false
}

/// The files that get a section, in order: every file with a finding when
/// passes are shown, else those with a finding that is no pass.
pub fn section_files(report: &LintReport, verbose: bool) -> (sections: Vec<String>)
    ensures
        string_views(sections@) == spec_section_files(*report, verbose),
{
    let files = files_of(report);
    let ghost all = string_views(files@);
    let mut sections: Vec<String> = Vec::new();
    let mut i: usize = 0;
    assert(string_views(sections@) =~= Seq::<Seq<char>>::empty());
    while i < files.len()
        invariant
            i <= files.len(),
            all == string_views(files@),
            string_views(sections@) == sections_upto(*report, all, verbose, i as int),
        decreases files.len() - i,
    {
        assert(all[i as int] == files@[i as int]@);
        if verbose || file_is_notable(report, files[i].as_str()) {
            let ghost before = sections@;
            sections.push(files[i].clone());
            assert(string_views(sections@) =~= string_views(before).push(all[i as int]));
        }
        i = i + 1;
    }
    sections
}

/// The index of the structure finding that the section of `file` shows, if
/// it shows one.
pub fn structure_row(report: &LintReport, file: &str, verbose: bool) -> (row: Option<usize>)
    ensures
        row == spec_structure_row(report.structure_findings@, file@, verbose),
        row matches Some(i) ==> i < report.structure_findings@.len(),
{
    let mut i: usize = 0;
    while i < report.structure_findings.len()
        invariant
            i <= report.structure_findings.len(),
            first_structure(report.structure_findings@, file@, 0) == first_structure(
                report.structure_findings@,
                file@,
                i as int,
            ),
        decreases report.structure_findings.len() - i,
    {
        let f = &report.structure_findings[i];
        if same_text(f.file.as_str(), file) {
            if is_shown(f.severity, verbose) {
                return Some(i);
            } else {
                return None;
            }
        }
        i = i + 1;
    }
    None
}

/// The indices of the token findings that the section of `file` shows, in
/// order. For the section of the whole corpus, `file` is its label.
pub fn token_rows(report: &LintReport, file: &str, verbose: bool) -> (rows: Vec<usize>)
    ensures
        rows@ == token_rows_upto(report.findings@, file@, verbose, report.findings@.len() as int),
        forall|k: int| 0 <= k < rows@.len() ==> #[trigger] rows@[k] < report.findings@.len(),
{
    let mut rows: Vec<usize> = Vec::new();
    let mut i: usize = 0;
    while i < report.findings.len()
        invariant
            i <= report.findings.len(),
            rows@ == token_rows_upto(report.findings@, file@, verbose, i as int),
            forall|k: int| 0 <= k < rows@.len() ==> #[trigger] rows@[k] < i,
        decreases report.findings.len() - i,
    {
        let f = &report.findings[i];
        if same_text(f.file.as_str(), file) && is_shown(f.severity, verbose) {
            rows.push(i);
        }
        i = i + 1;
    }
    rows
}

/// Whether the findings on the whole corpus get a section.
pub fn shows_aggregate(report: &LintReport, verbose: bool) -> (r: bool)
    ensures
        r == spec_shows_aggregate(*report, verbose),
{
    let mut i: usize = 0;
    while i < report.findings.len()
        invariant
            i <= report.findings.len(),
            forall|k: int|
                0 <= k < i ==> !((#[trigger] report.findings@[k]).file@ == aggregate_label()
                    && shown(report.findings@[k].severity, verbose)),
        decreases report.findings.len() - i,
    {
        let f = &report.findings[i];
        if same_text(f.file.as_str(), AGGREGATE_LABEL) && is_shown(f.severity, verbose) {
            return true;
        }
        i = i + 1;
    }
    false
}

/// The worst severity among the token findings at `rows`, `Pass` if there
/// is none. An index beyond the findings counts for nothing.
pub fn worst_row(report: &LintReport, rows: &Vec<usize>) -> (worst: Severity)
    ensures
        forall|k: int|
            0 <= k < rows@.len() && rows@[k] < report.findings@.len() ==> (
            #[trigger] report.findings@[rows@[k] as int]).severity.rank() <= worst.rank(),
        worst == Severity::Pass || exists|k: int|
            0 <= k < rows@.len() && rows@[k] < report.findings@.len() && (
            #[trigger] report.findings@[rows@[k] as int]).severity == worst,
{
    let mut worst = Severity::Pass;
    let mut i: usize = 0;
    while i < rows.len()
        invariant
            i <= rows.len(),
            forall|k: int|
                0 <= k < i && rows@[k] < report.findings@.len() ==> (
                #[trigger] report.findings@[rows@[k] as int]).severity.rank() <= worst.rank(),
            worst == Severity::Pass || exists|k: int|
                0 <= k < i && rows@[k] < report.findings@.len() && (
                #[trigger] report.findings@[rows@[k] as int]).severity == worst,
        decreases rows.len() - i,
    {
        let row = rows[i];
        if row < report.findings.len() {
            let ghost before = worst;
            worst = worst.max(report.findings[row].severity);
            proof {
                if worst != before {
                    assert(report.findings@[rows@[i as int] as int].severity == worst);
                } else if worst != Severity::Pass {
                    let k = choose|k: int|
                        0 <= k < i && rows@[k] < report.findings@.len() && (
                        #[trigger] report.findings@[rows@[k] as int]).severity == before;
                    assert(report.findings@[rows@[k] as int].severity == worst);
                }
            }
        }
        i = i + 1;
    }
    worst
}

fn count_in(report: &LintReport, severity: Severity) -> (n: usize)
    requires
        report.findings@.len() + report.structure_findings@.len() <= usize::MAX,
    ensures
        n == count_of(*report, severity),
{
    let ghost a = report.findings@.map_values(|f: LintFinding| f.severity);
    let ghost b = report.structure_findings@.map_values(|f: StructureFinding| f.severity);
    let ghost all = report.severities();
    let mut n: usize = 0;
    let mut i: usize = 0;
    while i < report.findings.len()
        invariant
            i <= report.findings.len(),
            report.findings@.len() + report.structure_findings@.len() <= usize::MAX,
            all == report.severities(),
            n == count_upto(all, severity, i as int),
            n <= i,
        decreases report.findings.len() - i,
    {
        assert(all[i as int] == report.findings@[i as int].severity);
        if report.findings[i].severity == severity {
            n = n + 1;
        }
        i = i + 1;
    }
    let offset = report.findings.len();
    let mut j: usize = 0;
    while j < report.structure_findings.len()
        invariant
            j <= report.structure_findings.len(),
            offset == report.findings.len(),
            report.findings@.len() + report.structure_findings@.len() <= usize::MAX,
            all == report.severities(),
            n == count_upto(all, severity, offset + j),
            n <= offset + j,
        decreases report.structure_findings.len() - j,
    {
        assert(all[offset + j] == report.structure_findings@[j as int].severity);
        if report.structure_findings[j].severity == severity {
            n = n + 1;
        }
        j = j + 1;
    }
    assert(all.len() == offset + report.structure_findings@.len());
    n
}

/// The numbers under a report: how many findings passed, how many are
/// warnings and how many errors, and how many files have findings.
pub fn summarize(report: &LintReport) -> (summary: Summary)
    requires
        report.findings@.len() + report.structure_findings@.len() <= usize::MAX,
    ensures
        summary.passed == count_of(*report, Severity::Pass),
        summary.warnings == count_of(*report, Severity::Warning),
        summary.errors == count_of(*report, Severity::Error),
        summary.files == report_files(*report).len(),
        summary.passed + summary.warnings + summary.errors == report.findings@.len()
            + report.structure_findings@.len(),
{
    proof {
        lemma_counts_add_up(report.severities(), report.severities().len() as int);
    }
    let files = files_of(report);
    Summary {
        passed: count_in(report, Severity::Pass),
        warnings: count_in(report, Severity::Warning),
        errors: count_in(report, Severity::Error),
        files: files.len(),
    }
}

} // verus!
