//! The uniqueness rules: no two documents share a name, or a description.

use crate::config::Config;
use crate::document::{
    document_field, field_value, file_views, find_field, frontmatter, split_document, SourceFile,
    SourceFileView,
};
use crate::text::{
    chars_of, join, join_strings, same_chars, same_text, slice_of, string_of, string_views,
};
use crate::types::{structure_views, Severity, StructureFinding, StructureFindingView};
use vstd::prelude::*;
use vstd::string::StringExecFns;

verus! {

/// Number of characters of a value that an error message shows in full.
pub const SHOWN_LENGTH: usize = 40;

/// The value of `field` in each document.
pub open spec fn field_values(files: Seq<SourceFileView>, field: Seq<char>) -> Seq<
    Option<Seq<char>>,
> {
    files.map_values(|f: SourceFileView| document_field(f.content, field))
}

/// Whether another document has the value of document `i`.
pub open spec fn is_duplicate(values: Seq<Option<Seq<char>>>, i: int) -> bool {
    exists|j: int| 0 <= j < values.len() && j != i && #[trigger] values[j] == values[i]
}

/// The paths, among the first `n` documents, of those that have the value of
/// document `i` and another path than it.
pub open spec fn others(
    files: Seq<SourceFileView>,
    values: Seq<Option<Seq<char>>>,
    i: int,
    n: int,
) -> Seq<Seq<char>>
    decreases n,
{
    if n <= 0 {
        Seq::empty()
    } else {
        let rest = others(files, values, i, n - 1);
        if values[n - 1] == values[i] && files[n - 1].path != files[i].path {
            rest.push(files[n - 1].path)
        } else {
            rest
        }
    }
}

/// A value as an error message shows it: in full if it has at most 40
/// characters, else its first 40 characters and an ellipsis.
pub open spec fn shown(value: Seq<char>, truncate: bool) -> Seq<char> {
    if truncate && value.len() > SHOWN_LENGTH {
        value.take(SHOWN_LENGTH as int) + "..."@
    } else {
        value
    }
}

/// The message of a duplicate.
pub open spec fn duplicate_message(
    field: Seq<char>,
    value: Seq<char>,
    truncate: bool,
    also_in: Seq<Seq<char>>,
) -> Seq<char> {
    "duplicate "@ + field + " \""@ + shown(value, truncate) + "\" (also in "@ + join(
        also_in,
        ", "@,
    ) + ")"@
}

/// The finding of a uniqueness rule for document `i`, which has a value.
pub open spec fn unique_finding(
    rule: Seq<char>,
    field: Seq<char>,
    truncate: bool,
    files: Seq<SourceFileView>,
    values: Seq<Option<Seq<char>>>,
    i: int,
) -> StructureFindingView {
    if is_duplicate(values, i) {
        StructureFindingView {
            rule,
            file: files[i].path,
            message: duplicate_message(
                field,
                values[i]->Some_0,
                truncate,
                others(files, values, i, files.len() as int),
            ),
            severity: Severity::Error,
        }
    } else {
        StructureFindingView {
            rule,
            file: files[i].path,
            message: "unique"@,
            severity: Severity::Pass,
        }
    }
}

/// The findings of one uniqueness rule for document `i`: one if the rule is
/// on and the document has a value, else none.
pub open spec fn findings_of(
    enabled: bool,
    rule: Seq<char>,
    field: Seq<char>,
    truncate: bool,
    files: Seq<SourceFileView>,
    i: int,
) -> Seq<StructureFindingView> {
    let values = field_values(files, field);
    if enabled && values[i] is Some {
        seq![unique_finding(rule, field, truncate, files, values, i)]
    } else {
        Seq::empty()
    }
}

/// The findings of both uniqueness rules for the first `n` documents: for
/// each in turn that of its name, then that of its description.
pub open spec fn findings_upto(
    check_name: bool,
    check_description: bool,
    files: Seq<SourceFileView>,
    n: int,
) -> Seq<StructureFindingView>
    decreases n,
{
    if n <= 0 {
        Seq::empty()
    } else {
        findings_upto(check_name, check_description, files, n - 1) + findings_of(
            check_name,
            "unique-name"@,
            "name"@,
            false,
            files,
            n - 1,
        ) + findings_of(
            check_description,
            "unique-description"@,
            "description"@,
            true,
            files,
            n - 1,
        )
    }
}

/// Whether `flag` switches a rule on.
pub open spec fn enabled(flag: Option<bool>) -> bool {
    flag == Some(true)
}

/// The findings of the uniqueness rules that `config` switches on.
pub open spec fn spec_check_all(config: Config, files: Seq<SourceFileView>) -> Seq<
    StructureFindingView,
> {
    findings_upto(
        enabled(config.rules.unique_name),
        enabled(config.rules.unique_description),
        files,
        files.len() as int,
    )
}

/// The view of an optional text.
pub open spec fn optional_chars(o: Option<Vec<char>>) -> Option<Seq<char>> {
    match o {
        Some(x) => Some(x@),
        None => None,
    }
}

/// The views of optional texts.
pub open spec fn optional_views(v: Seq<Option<Vec<char>>>) -> Seq<Option<Seq<char>>> {
    v.map_values(|o: Option<Vec<char>>| optional_chars(o))
}

/// The value of the field in the front matter of `content`, trimmed. `None`
/// if the block has no line that starts with the field and a colon and goes
/// on with more than whitespace.
pub fn extract_field(frontmatter: &str, field: &str) -> (r: Option<String>)
    ensures
        match r {
            Some(v) => field_value(frontmatter@, field@) == Some(v@),
            None => field_value(frontmatter@, field@) is None,
        },
{
    let block = chars_of(frontmatter);
    let name = chars_of(field);
    match find_field(&block, &name) {
        Some(v) => Some(string_of(&v)),
        None => None,
    }
}

fn collect_values(files: &Vec<SourceFile>, field: &str) -> (values: Vec<Option<Vec<char>>>)
    ensures
        optional_views(values@) == field_values(file_views(files@), field@),
{
    let name = chars_of(field);
    let mut values: Vec<Option<Vec<char>>> = Vec::new();
    let ghost goal = field_values(file_views(files@), field@);
    let mut i: usize = 0;
    while i < files.len()
        invariant
            i <= files.len(),
            name@ == field@,
            goal == field_values(file_views(files@), field@),
            optional_views(values@) == goal.take(i as int),
        decreases files.len() - i,
    {
        let content = chars_of(files[i].content.as_str());
        let value = match split_document(&content) {
            Some(sections) => find_field(&sections.block, &name),
            None => None,
        };
        let ghost before = values@;
        assert(file_views(files@)[i as int].content == content@);
        values.push(value);
        assert(optional_views(values@) =~= optional_views(before).push(goal[i as int]));
        i = i + 1;
        assert(optional_views(values@) =~= goal.take(i as int));
    }
    assert(goal.take(goal.len() as int) =~= goal);
    values
}

fn same_value(a: &Option<Vec<char>>, b: &Option<Vec<char>>) -> (r: bool)
    ensures
        r == (optional_chars(*a) == optional_chars(*b)),
{
    match (a, b) {
        (Some(x), Some(y)) => same_chars(x, y),
        (None, None) => true,
        _ => false,
    }
}

fn has_duplicate(values: &Vec<Option<Vec<char>>>, i: usize) -> (r: bool)
    requires
        i < values.len(),
    ensures
        r == is_duplicate(optional_views(values@), i as int),
{
    let ghost all = optional_views(values@);
    let mut j: usize = 0;
    while j < values.len()
        invariant
            j <= values.len(),
            i < values.len(),
            all == optional_views(values@),
            forall|k: int| 0 <= k < j && k != i ==> #[trigger] all[k] != all[i as int],
        decreases values.len() - j,
    {
        if j != i && same_value(&values[j], &values[i]) {
            assert(all[j as int] == all[i as int]);
            return true;
        }
        j = j + 1;
    }
    false
}

fn other_paths(files: &Vec<SourceFile>, values: &Vec<Option<Vec<char>>>, i: usize) -> (r: Vec<
    String,
>)
    requires
        i < files.len(),
        files.len() == values.len(),
    ensures
        string_views(r@) == others(
            file_views(files@),
            optional_views(values@),
            i as int,
            files.len() as int,
        ),
{
    let ghost fs = file_views(files@);
    let ghost vs = optional_views(values@);
    let mut r: Vec<String> = Vec::new();
    let mut j: usize = 0;
    assert(string_views(r@) =~= Seq::<Seq<char>>::empty());
    while j < files.len()
        invariant
            j <= files.len(),
            i < files.len(),
            files.len() == values.len(),
            fs == file_views(files@),
            vs == optional_views(values@),
            string_views(r@) == others(fs, vs, i as int, j as int),
        decreases files.len() - j,
    {
        assert(fs[j as int].path == files@[j as int].path@);
        assert(fs[i as int].path == files@[i as int].path@);
        if same_value(&values[j], &values[i]) && !same_text(
            files[j].path.as_str(),
            files[i].path.as_str(),
        ) {
            let ghost before = r@;
            let path = files[j].path.clone();
            r.push(path);
            assert(string_views(r@) =~= string_views(before).push(fs[j as int].path));
        }
        j = j + 1;
    }
    r
}

fn show(value: &Vec<char>, truncate: bool) -> (r: String)
    ensures
        r@ == shown(value@, truncate),
{
    if truncate && value.len() > SHOWN_LENGTH {
        let head = slice_of(value, 0, SHOWN_LENGTH);
        assert(head@ =~= value@.take(SHOWN_LENGTH as int));
        string_of(&head).concat("...")
    } else {
        string_of(value)
    }
}

fn finding_at(
    rule: &str,
    field: &str,
    truncate: bool,
    files: &Vec<SourceFile>,
    values: &Vec<Option<Vec<char>>>,
    i: usize,
) -> (r: StructureFinding)
    requires
        i < files.len(),
        files.len() == values.len(),
        values@[i as int] is Some,
    ensures
        r@ == unique_finding(
            rule@,
            field@,
            truncate,
            file_views(files@),
            optional_views(values@),
            i as int,
        ),
{
    if has_duplicate(values, i) {
        let also_in = other_paths(files, values, i);
        let value = match &values[i] {
            Some(v) => show(v, truncate),
            None => String::new(),
        };
        let mut message = "duplicate ".to_string();
        message.append(field);
        message.append(" \"");
        message.append(value.as_str());
        message.append("\" (also in ");
        message.append(join_strings(&also_in, ", ").as_str());
        message.append(")");
        StructureFinding {
            rule: rule.to_string(),
            file: files[i].path.clone(),
            message,
            severity: Severity::Error,
        }
    } else {
        StructureFinding {
            rule: rule.to_string(),
            file: files[i].path.clone(),
            message: "unique".to_string(),
            severity: Severity::Pass,
        }
    }
}

/// The findings of the uniqueness rules that `config` switches on: for each
/// document in turn that has a name, one under `unique-name`, and for each
/// that has a description, one under `unique-description`.
pub fn check_all(config: &Config, files: &Vec<SourceFile>) -> (findings: Vec<StructureFinding>)
    ensures
        structure_views(findings@) == spec_check_all(*config, file_views(files@)),
{
    let check_name = is_on(&config.rules.unique_name);
    let check_description = is_on(&config.rules.unique_description);
    let mut findings: Vec<StructureFinding> = Vec::new();
    let ghost fs = file_views(files@);
    assert(structure_views(findings@) =~= Seq::<StructureFindingView>::empty());
    if !check_name && !check_description {
        proof {
            lemma_nothing_enabled(fs, fs.len() as int);
        }
        return findings;
    }
    let names = collect_values(files, "name");
    let descriptions = collect_values(files, "description");
    let mut i: usize = 0;
    while i < files.len()
        invariant
            i <= files.len(),
            fs == file_views(files@),
            check_name == enabled(config.rules.unique_name),
            check_description == enabled(config.rules.unique_description),
            optional_views(names@) == field_values(fs, "name"@),
            optional_views(descriptions@) == field_values(fs, "description"@),
            structure_views(findings@) == findings_upto(
                check_name,
                check_description,
                fs,
                i as int,
            ),
        decreases files.len() - i,
    {
        assert(names@.len() == fs.len() && descriptions@.len() == fs.len()) by {
            assert(optional_views(names@).len() == fs.len());
            assert(optional_views(descriptions@).len() == fs.len());
        }
        let ghost before = structure_views(findings@);
        let ghost a = findings_of(check_name, "unique-name"@, "name"@, false, fs, i as int);
        let ghost b = findings_of(
            check_description,
            "unique-description"@,
            "description"@,
            true,
            fs,
            i as int,
        );
        assert(optional_views(names@)[i as int] is Some <==> names@[i as int] is Some);
        assert(optional_views(descriptions@)[i as int] is Some <==> descriptions@[i as int]
            is Some);
        if check_name && names[i].is_some() {
            let ghost old_findings = findings@;
            let f = finding_at("unique-name", "name", false, files, &names, i);
            findings.push(f);
            assert(structure_views(findings@) =~= structure_views(old_findings).push(f@));
        }
        assert(structure_views(findings@) =~= before + a);
        if check_description && descriptions[i].is_some() {
            let ghost old_findings = findings@;
            let f = finding_at(
                "unique-description",
                "description",
                true,
                files,
                &descriptions,
                i,
            );
            findings.push(f);
            assert(structure_views(findings@) =~= structure_views(old_findings).push(f@));
        }
        assert(structure_views(findings@) =~= before + a + b);
        i = i + 1;
    }
    findings
}

fn is_on(flag: &Option<bool>) -> (r: bool)
    ensures
        r == enabled(*flag),
{
    match flag {
        Some(b) => *b,
        None => false,
    }
}

/// With both rules off there are no findings.
pub proof fn lemma_nothing_enabled(files: Seq<SourceFileView>, n: int)
    ensures
        findings_upto(false, false, files, n) == Seq::<StructureFindingView>::empty(),
    decreases n,
{
    if n > 0 {
        lemma_nothing_enabled(files, n - 1);
        assert(findings_upto(false, false, files, n) =~= Seq::<StructureFindingView>::empty());
    }
}

/// Two documents with the same value and different paths are duplicates of
/// each other, and each is listed among the others of the other.
pub proof fn lemma_duplicates_list_each_other(
    files: Seq<SourceFileView>,
    values: Seq<Option<Seq<char>>>,
    i: int,
    j: int,
)
    requires
        files.len() == values.len(),
        0 <= i < files.len(),
        0 <= j < files.len(),
        i != j,
        values[i] == values[j],
        files[i].path != files[j].path,
    ensures
        is_duplicate(values, i),
        is_duplicate(values, j),
        others(files, values, i, files.len() as int).contains(files[j].path),
        others(files, values, j, files.len() as int).contains(files[i].path),
{
    lemma_others_lists(files, values, i, j, files.len() as int);
    lemma_others_lists(files, values, j, i, files.len() as int);
}

/// A document whose value no other document has is no duplicate, so its
/// finding is a pass.
pub proof fn lemma_distinct_value_passes(
    rule: Seq<char>,
    field: Seq<char>,
    truncate: bool,
    files: Seq<SourceFileView>,
    values: Seq<Option<Seq<char>>>,
    i: int,
)
    requires
        0 <= i < values.len(),
        forall|j: int| 0 <= j < values.len() && j != i ==> #[trigger] values[j] != values[i],
    ensures
        unique_finding(rule, field, truncate, files, values, i).severity == Severity::Pass,
{
}

proof fn lemma_others_lists(
    files: Seq<SourceFileView>,
    values: Seq<Option<Seq<char>>>,
    i: int,
    j: int,
    n: int,
)
    requires
        0 <= j < n,
        values[i] == values[j],
        files[i].path != files[j].path,
    ensures
        others(files, values, i, n).contains(files[j].path),
    decreases n,
{
    let rest = others(files, values, i, n - 1);
    if j == n - 1 {
        assert(rest.push(files[j].path)[rest.len() as int] == files[j].path);
    } else {
        lemma_others_lists(files, values, i, j, n - 1);
        let k = choose|k: int| 0 <= k < rest.len() && rest[k] == files[j].path;
        if values[n - 1] == values[i] && files[n - 1].path != files[i].path {
            assert(rest.push(files[n - 1].path)[k] == files[j].path);
        }
    }
}

} // verus!
